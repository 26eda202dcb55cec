use matrix_game::common::{
    Pos3, TRACE_BUILDING, TRACE_CANNON, TRACE_FLYER, TRACE_OBJECT, TRACE_ROBOT,
    TRACE_SKIP_INVISIBLE,
};
use matrix_game::map_static::{
    fit_to_mask, CellRect, Control, Hit, MapStatic, ObjectCore, ObjectId, ObjectStatus, ObjectType, Objects, ObjectsView,
    Takt, MR_ALL, OBJECT_STATE_ABLAZE, OBJECT_STATE_TRACE_INVISIBLE,
};
use matrix_game::map_trace::ray_sphere_pick;
use std::cell::RefCell;
use std::rc::Rc;

type Log = Rc<RefCell<Vec<(&'static str, i32)>>>;

/// What a stub does in its logic turn.
#[derive(Clone, Copy)]
enum Act {
    Log,
    Remove(ObjectId),
    Add(ObjectId),
    Requeue(ObjectId),
}

struct Stub {
    core: ObjectCore,
    rchange: u32,
    state: u32,
    ablaze: i32,
    shorted: i32,
    log: Log,
    name: &'static str,
    log_takts: bool,
    act: Act,
    at: (f32, f32, f32),
    r: f32,
}

impl Stub {
    fn new(name: &'static str, log: Log) -> Self {
        let mut core = ObjectCore::default();
        core.obj_type = ObjectType::MapObject;
        Stub {
            core,
            rchange: MR_ALL,
            state: 0,
            ablaze: 0,
            shorted: 0,
            log,
            name,
            log_takts: false,
            act: Act::Log,
            at: (0.0, 0.0, 0.0),
            r: 0.0,
        }
    }

    fn placed(mut self, x: f32, y: f32, r: f32) -> Self {
        self.at = (x, y, 0.0);
        self.r = r;
        self.core.cells = cells_of(x, y, r.max(1.0));
        self
    }
}

impl MapStatic for Stub {
    // What contracts speak of; never run.
    fn status(&self) -> ObjectStatus {
        unreachable!()
    }
    fn with_status(&self, _s: ObjectStatus) -> Stub {
        unreachable!()
    }
    fn live(&self) -> bool {
        unreachable!()
    }
    fn cell_rect(&self) -> CellRect {
        unreachable!()
    }

    fn obj_type(&self) -> ObjectType {
        self.core.obj_type
    }
    fn rchange(&self) -> u32 {
        self.rchange
    }
    fn rchange_set(&mut self, b: u32) {
        self.rchange |= b;
    }
    fn rchange_clear(&mut self, b: u32) {
        self.rchange &= !b;
    }
    fn object_state(&self) -> u32 {
        self.state
    }
    fn object_state_set(&mut self, b: u32) {
        self.state |= b;
    }
    fn object_state_clear(&mut self, b: u32) {
        self.state &= !b;
    }
    fn ablaze_ttl(&self) -> i32 {
        self.ablaze
    }
    fn set_ablaze_ttl(&mut self, t: i32) {
        self.ablaze = t;
    }
    fn shorted_ttl(&self) -> i32 {
        self.shorted
    }
    fn set_shorted_ttl(&mut self, t: i32) {
        self.shorted = t;
    }
    fn is_live(&self) -> bool {
        true
    }
    fn cells(&self) -> CellRect {
        self.core.cells
    }
}

impl Takt for Stub {
    type Env = ();

    // What contracts speak of; never run.
    fn logic_takt_rel(
        _pre: Stub,
        _cms: i32,
        _env: (),
        _objs: ObjectsView<Stub>,
        _post: Stub,
        _env2: (),
        _objs2: ObjectsView<Stub>,
    ) -> bool {
        unreachable!()
    }
    fn takt_rel(
        _pre: Stub,
        _cms: i32,
        _env: (),
        _objs: ObjectsView<Stub>,
        _post: Stub,
        _env2: (),
        _objs2: ObjectsView<Stub>,
    ) -> bool {
        unreachable!()
    }
    fn damage_rel(
        _pre: Stub,
        _hit: Hit,
        _id: ObjectId,
        _env: (),
        _objs: ObjectsView<Stub>,
        _post: Stub,
        _gone: bool,
        _env2: (),
        _objs2: ObjectsView<Stub>,
    ) -> bool {
        unreachable!()
    }
    fn standing(&self) -> Stub {
        unreachable!()
    }
    fn asking(&self) -> bool {
        unreachable!()
    }

    fn asks(&self) -> bool {
        false
    }

    fn logic_takt(&mut self, cms: i32, _env: &mut (), objs: &mut Objects<Stub>) {
        match self.act {
            Act::Log => self.log.borrow_mut().push((self.name, cms)),
            Act::Remove(id) => objs.del_lt(id),
            Act::Add(id) => objs.add_lt(id),
            Act::Requeue(id) => {
                objs.del_lt(id);
                objs.add_lt(id);
            }
        }
    }
    fn takt(&mut self, cms: i32, _env: &mut (), _objs: &mut Objects<Stub>) {
        if self.log_takts {
            self.log.borrow_mut().push((self.name, -cms));
        }
    }
    fn damage(&mut self, _hit: Hit, _id: ObjectId, _env: &mut (), _objs: &mut Objects<Stub>) -> bool {
        false
    }
    fn switch_animation_stay(&mut self) {}
}

const GRID_CELL: f32 = 128.0;

/// The grid cells that a circle touches.
fn cells_of(x: f32, y: f32, r: f32) -> CellRect {
    let f = |v: f32| (v / GRID_CELL).floor() as i32;
    CellRect {
        x0: f(x - r),
        y0: f(y - r),
        x1: f(x + r),
        y1: f(y + r),
    }
}

fn within(x: f32, y: f32, radius: f32) -> impl Fn(&Stub) -> bool {
    move |o: &Stub| {
        let (dx, dy) = (o.at.0 - x, o.at.1 - y);
        let reach = radius + o.r;
        dx * dx + dy * dy < reach * reach
    }
}

fn new_log() -> Log {
    Rc::new(RefCell::new(Vec::new()))
}

fn sphere_pick(center: [f32; 3], radius: f32, origin: [f32; 3], dir: [f32; 3]) -> Option<f32> {
    let oc = [
        origin[0] - center[0],
        origin[1] - center[1],
        origin[2] - center[2],
    ];
    let b = oc[0] * dir[0] + oc[1] * dir[1] + oc[2] * dir[2];
    let c = oc[0] * oc[0] + oc[1] * oc[1] + oc[2] * oc[2] - radius * radius;
    let disc = b * b - c;
    let root = disc.max(0.0).sqrt();
    ray_sphere_pick(
        radius.to_bits(),
        disc.to_bits(),
        (-b - root).to_bits(),
        (-b + root).to_bits(),
    )
    .map(f32::from_bits)
}

#[test]
fn add_lt_is_idempotent_and_del_lt_on_absent_is_noop() {
    let log = new_log();
    let mut objs = Objects::new();
    let a = objs.spawn(Stub::new("a", log.clone()));
    assert!(!objs.in_lt(a));
    objs.del_lt(a);
    objs.add_lt(a);
    objs.add_lt(a);
    assert!(objs.in_lt(a));
    assert_eq!(objs.iter_logic(), vec![a]);
    objs.del_lt(a);
    objs.del_lt(a);
    assert!(!objs.in_lt(a));
    assert!(objs.iter_logic().is_empty());
}

#[test]
fn proceed_logic_visits_each_object_once() {
    let log = new_log();
    let mut objs = Objects::new();
    let a = objs.spawn(Stub::new("a", log.clone()));
    let b = objs.spawn(Stub::new("b", log.clone()));
    let c = objs.spawn(Stub::new("c", log.clone()));
    objs.add_lt(a);
    objs.add_lt(b);
    objs.add_lt(c);

    objs.proceed_logic(10, &mut ());
    assert_eq!(log.borrow().clone(), vec![("a", 10), ("b", 10), ("c", 10)]);
}

#[test]
fn fit_to_mask_covers_every_object_type() {
    fn stub(kind: ObjectType, state: u32) -> Stub {
        let mut s = Stub::new("s", new_log());
        s.core.obj_type = kind;
        s.state = state;
        s
    }
    let rob = stub(ObjectType::RobotAi, 0);
    let cnn = stub(ObjectType::Cannon, 0);
    let bld = stub(ObjectType::Building, 0);
    let obj = stub(ObjectType::MapObject, 0);
    let fly = stub(ObjectType::Flyer, 0);
    let emp = stub(ObjectType::Empty, 0);
    assert!(fit_to_mask(&rob, TRACE_ROBOT));
    assert!(!fit_to_mask(&rob, TRACE_OBJECT));
    assert!(fit_to_mask(&cnn, TRACE_CANNON));
    assert!(fit_to_mask(&bld, TRACE_BUILDING));
    assert!(fit_to_mask(&obj, TRACE_OBJECT));
    assert!(fit_to_mask(&fly, TRACE_FLYER));
    assert!(!fit_to_mask(&emp, u32::MAX));
    assert!(fit_to_mask(&rob, TRACE_ROBOT | TRACE_OBJECT));
}

#[test]
fn fit_to_mask_respects_skip_invisible() {
    let visible = Stub::new("v", new_log());
    let mut invis = Stub::new("i", new_log());
    invis.state = OBJECT_STATE_TRACE_INVISIBLE;
    assert!(fit_to_mask(&visible, TRACE_OBJECT | TRACE_SKIP_INVISIBLE));
    assert!(!fit_to_mask(&invis, TRACE_OBJECT | TRACE_SKIP_INVISIBLE));
    assert!(fit_to_mask(&invis, TRACE_OBJECT));
}

#[test]
fn find_objects_returns_all_hits_in_radius_and_honors_skip() {
    let log = new_log();
    let mut objs = Objects::new();
    let mut make = |x: f32, y: f32| -> ObjectId {
        objs.spawn(Stub::new("x", log.clone()).placed(x, y, 0.0))
    };
    let a = make(0.0, 0.0);
    let b = make(5.0, 0.0);
    let c = make(20.0, 0.0);
    let d = make(3.0, 4.0);

    let hits = RefCell::new(Vec::new());
    let area = cells_of(0.0, 0.0, 10.0);
    let got = objs.find_objects(
        area,
        TRACE_OBJECT,
        None,
        &within(0.0, 0.0, 10.0),
        &|id: ObjectId, _o: &Stub| {
            hits.borrow_mut().push(id);
            Control::Continue
        },
    );
    assert!(got, "at least one hit");
    assert!(hits.borrow().contains(&a));
    assert!(hits.borrow().contains(&b));
    assert!(!hits.borrow().contains(&c));
    assert!(hits.borrow().contains(&d));
    // Each stub touches four grid cells and is still visited once.
    assert_eq!(hits.borrow().len(), 3);

    hits.borrow_mut().clear();
    objs.find_objects(
        area,
        TRACE_OBJECT,
        Some(a),
        &within(0.0, 0.0, 10.0),
        &|id: ObjectId, _o: &Stub| {
            hits.borrow_mut().push(id);
            Control::Continue
        },
    );
    assert!(!hits.borrow().contains(&a));
}

#[test]
fn find_objects_stops_on_break() {
    let log = new_log();
    let mut objs = Objects::new();
    for _ in 0..5 {
        objs.spawn(Stub::new("x", log.clone()).placed(0.0, 0.0, 0.0));
    }
    let visited = RefCell::new(0);
    let area = cells_of(0.0, 0.0, 10.0);
    let got = objs.find_objects(
        area,
        TRACE_OBJECT,
        None,
        &within(0.0, 0.0, 10.0),
        &|_id: ObjectId, _o: &Stub| {
            *visited.borrow_mut() += 1;
            Control::Break
        },
    );
    assert!(got);
    assert_eq!(*visited.borrow(), 1, "Break stops after the first hit");
    assert!(objs.any_object_in_radius(area, TRACE_OBJECT, None, &within(0.0, 0.0, 10.0)));
}

#[test]
fn find_objects_filters_by_type_mask() {
    let log = new_log();
    let mut objs = Objects::new();
    objs.spawn(Stub::new("o", log.clone()).placed(0.0, 0.0, 0.0));
    let area = cells_of(0.0, 0.0, 10.0);
    assert!(!objs.any_object_in_radius(area, TRACE_ROBOT, None, &within(0.0, 0.0, 10.0)));
    assert!(objs.any_object_in_radius(area, TRACE_OBJECT, None, &within(0.0, 0.0, 10.0)));
}

#[test]
fn ray_sphere_pick_hits_front_face_when_outside() {
    let t = sphere_pick([10.0, 0.0, 0.0], 2.0, [0.0; 3], [1.0, 0.0, 0.0]).unwrap();
    assert!((t - 8.0).abs() < 1e-5);
}

#[test]
fn ray_sphere_pick_misses_off_axis() {
    assert!(sphere_pick([10.0, 5.0, 0.0], 2.0, [0.0; 3], [1.0, 0.0, 0.0]).is_none());
}

#[test]
fn ray_sphere_pick_returns_exit_when_inside_sphere() {
    let t = sphere_pick([0.0; 3], 3.0, [0.0; 3], [1.0, 0.0, 0.0]).unwrap();
    assert!((t - 3.0).abs() < 1e-5);
}

#[test]
fn ray_sphere_pick_rejects_zero_radius() {
    assert!(sphere_pick([0.0; 3], 0.0, [-10.0, 0.0, 0.0], [1.0, 0.0, 0.0]).is_none());
}

#[test]
fn pick_object_returns_nearest_hit_matching_mask() {
    let log = new_log();
    let mut objs = Objects::new();
    let mut mk = |x: f32, kind: ObjectType, r: f32| -> ObjectId {
        let mut s = Stub::new("x", log.clone()).placed(x, 0.0, r);
        s.core.obj_type = kind;
        objs.spawn(s)
    };
    let _near = mk(5.0, ObjectType::MapObject, 1.0);
    let mid = mk(10.0, ObjectType::Building, 1.0);
    let _far = mk(20.0, ObjectType::Building, 1.0);

    let pick = |o: &Stub| -> Option<u32> {
        sphere_pick([o.at.0, o.at.1, o.at.2], o.r, [0.0; 3], [1.0, 0.0, 0.0]).map(f32::to_bits)
    };
    let ray = CellRect {
        x0: 0,
        y0: 0,
        x1: (4000.0 / GRID_CELL) as i32,
        y1: 0,
    };

    let (_, t) = objs.pick_object(ray, TRACE_OBJECT, None, &pick).unwrap();
    assert!((f32::from_bits(t) - 4.0).abs() < 1e-5);

    let (hit_id, t) = objs.pick_object(ray, TRACE_BUILDING, None, &pick).unwrap();
    assert_eq!(hit_id, mid);
    assert!((f32::from_bits(t) - 9.0).abs() < 1e-5);

    assert!(objs.pick_object(ray, TRACE_ROBOT, None, &pick).is_none());
}

#[test]
fn graphic_takt_visits_every_live_object_ignoring_logic_temp_membership() {
    let log = new_log();
    let mut objs = Objects::new();
    let mut mk = |name: &'static str| {
        let mut s = Stub::new(name, log.clone());
        s.log_takts = true;
        objs.spawn(s)
    };
    let a = mk("a");
    let _b = mk("b");
    let c = mk("c");
    objs.add_lt(a);
    objs.add_lt(c);

    // Graphic turns are logged with the time negated.
    objs.graphic_takt(33, &mut ());
    assert_eq!(log.borrow().clone(), vec![("a", -33), ("b", -33), ("c", -33)]);

    log.borrow_mut().clear();
    objs.proceed_logic(10, &mut ());
    assert_eq!(log.borrow().clone(), vec![("a", 10), ("c", 10)]);
}

#[test]
fn graphic_takt_with_nonpositive_step_in_world_is_noop() {
    let log = new_log();
    let mut objs = Objects::new();
    let a = objs.spawn(Stub::new("a", log.clone()));
    objs.graphic_takt(0, &mut ());
    assert!(log.borrow().is_empty());
    assert!(objs.is_valid(a));
}

#[test]
fn arcaded_object_is_skipped() {
    let log = new_log();
    let mut objs = Objects::new();
    let a = objs.spawn(Stub::new("a", log.clone()));
    let b = objs.spawn(Stub::new("b", log.clone()));
    objs.add_lt(a);
    objs.add_lt(b);
    objs.arcaded_object = Some(b);

    objs.proceed_logic(5, &mut ());
    assert_eq!(log.borrow().clone(), vec![("a", 5)]);
}

#[test]
fn ablaze_ttl_clears_on_boundary() {
    let log = new_log();
    let mut objs = Objects::new();
    let a = objs.spawn(Stub::new("a", log.clone()));
    objs.get_mut(a).unwrap().object_state_set(OBJECT_STATE_ABLAZE);
    objs.get_mut(a).unwrap().set_ablaze_ttl(10);
    objs.add_lt(a);

    objs.proceed_logic(10, &mut ());
    let o = objs.get(a).unwrap();
    assert_eq!(o.ablaze_ttl(), 0);
    assert_eq!(o.object_state() & OBJECT_STATE_ABLAZE, 0);
}

#[test]
fn ablaze_ttl_does_not_clear_early() {
    let log = new_log();
    let mut objs = Objects::new();
    let a = objs.spawn(Stub::new("a", log.clone()));
    objs.get_mut(a).unwrap().object_state_set(OBJECT_STATE_ABLAZE);
    objs.get_mut(a).unwrap().set_ablaze_ttl(15);
    objs.add_lt(a);

    objs.proceed_logic(10, &mut ());
    let o = objs.get(a).unwrap();
    assert_eq!(o.ablaze_ttl(), 5);
    assert_ne!(o.object_state() & OBJECT_STATE_ABLAZE, 0);
}

#[test]
fn del_lt_of_next_during_takt_does_not_crash_walk() {
    let log = new_log();
    let mut objs = Objects::new();
    let a_id = objs.spawn(Stub::new("a", log.clone()));
    let b_id = objs.spawn(Stub::new("b", log.clone()));
    let c_id = objs.spawn(Stub::new("c", log.clone()));
    objs.get_mut(a_id).unwrap().act = Act::Remove(b_id);
    objs.add_lt(a_id);
    objs.add_lt(b_id);
    objs.add_lt(c_id);

    objs.proceed_logic(10, &mut ());
    assert_eq!(log.borrow().clone(), vec![("c", 10)]);
    assert!(!objs.in_lt(b_id));
}

#[test]
fn add_lt_during_takt_visits_on_next_call_only() {
    let log = new_log();
    let mut objs = Objects::new();
    let future_id = objs.spawn(Stub::new("future", log.clone()));
    let mut adder = Stub::new("adder", log.clone());
    adder.act = Act::Add(future_id);
    let adder_id = objs.spawn(adder);
    objs.add_lt(adder_id);

    objs.proceed_logic(10, &mut ());
    assert!(
        log.borrow().is_empty(),
        "future tick ran in 1st walk: {:?}",
        log.borrow()
    );
    assert!(objs.in_lt(future_id));

    objs.proceed_logic(7, &mut ());
    assert_eq!(log.borrow().clone(), vec![("future", 7)]);
}

// ── Handles ─────────────────────────────────────────────────────────────

#[test]
fn removed_handle_stays_stale_when_its_slot_is_used_again() {
    let log = new_log();
    let mut objs = Objects::new();
    let a = objs.spawn(Stub::new("a", log.clone()));
    objs.add_lt(a);
    objs.remove(a);
    assert!(!objs.is_valid(a));
    assert!(!objs.in_lt(a));
    let b = objs.spawn(Stub::new("b", log.clone()));
    assert_ne!(a, b);
    assert!(objs.get(a).is_none());
    assert_eq!(objs.get(b).unwrap().name, "b");
    objs.remove(a);
    assert!(objs.is_valid(b));
}

#[test]
fn checked_out_object_keeps_its_place() {
    let log = new_log();
    let mut objs = Objects::new();
    let a = objs.spawn(Stub::new("a", log.clone()));
    objs.add_lt(a);
    let o = objs.take_obj(a).unwrap();
    assert!(objs.get(a).is_none());
    assert!(objs.in_lt(a));
    assert!(objs.is_checked_out(a));
    objs.put_obj(a, o);
    assert!(objs.is_valid(a));
    assert!(!objs.is_checked_out(a));
}

#[test]
fn deferred_removal_waits_for_the_end_of_the_walk() {
    let log = new_log();
    let mut objs = Objects::new();
    let a = objs.spawn(Stub::new("a", log.clone()));
    objs.add_lt(a);
    objs.remove_deferred(a);
    assert!(objs.is_valid(a));
    objs.proceed_logic(1, &mut ());
    assert!(!objs.is_valid(a));
    assert!(objs.iter_logic().is_empty());
}

#[test]
fn shorted_timer_wears_off() {
    let log = new_log();
    let mut objs = Objects::new();
    let a = objs.spawn(Stub::new("a", log.clone()));
    objs.get_mut(a).unwrap().object_state_set(matrix_game::map_static::OBJECT_STATE_SHORTED);
    objs.get_mut(a).unwrap().set_shorted_ttl(25);
    objs.add_lt(a);
    objs.proceed_logic(10, &mut ());
    assert_eq!(objs.get(a).unwrap().shorted_ttl(), 15);
    objs.proceed_logic(20, &mut ());
    assert_eq!(objs.get(a).unwrap().shorted_ttl(), 0);
    assert_eq!(objs.get(a).unwrap().object_state(), 0);
}

#[test]
fn side_stats_count_by_side_and_ignore_unknown_sides() {
    let mut objs: Objects<Stub> = Objects::new();
    let bump = |mut s: matrix_game::map_static::SideStats| {
        s.robot_kill += 1;
        s
    };
    objs.inc_side_stat(2, bump);
    objs.inc_side_stat(2, bump);
    objs.inc_side_stat(9, bump);
    objs.inc_side_stat(-1, bump);
    assert_eq!(objs.side_stats[2].robot_kill, 2);
    assert_eq!(objs.side_stats[0].robot_kill, 0);
}

#[test]
fn sounds_queue_in_order() {
    let mut objs: Objects<Stub> = Objects::new();
    let here = Pos3 { x: 1, y: 2, z: 3 };
    objs.queue_snd("click");
    objs.queue_snd_at("boom", here);
    assert_eq!(objs.pending_sounds.len(), 2);
}

#[test]
fn an_object_that_left_and_came_back_waits_too() {
    let log = new_log();
    let mut objs = Objects::new();
    let b = objs.spawn(Stub::new("b", log.clone()));
    let mut a = Stub::new("a", log.clone());
    a.act = Act::Requeue(b);
    let a = objs.spawn(a);
    let c = objs.spawn(Stub::new("c", log.clone()));
    for id in [a, b, c] {
        objs.add_lt(id);
    }
    objs.proceed_logic(3, &mut ());
    assert_eq!(log.borrow().clone(), vec![("c", 3)]);
    assert_eq!(objs.iter_logic(), vec![a, c, b]);
}

#[test]
fn newcomer_waits_wherever_the_walk_stands() {
    let log = new_log();
    let mut objs = Objects::new();
    let future_id = objs.spawn(Stub::new("future", log.clone()));
    let mut adder = Stub::new("adder", log.clone());
    adder.act = Act::Add(future_id);
    let adder_id = objs.spawn(adder);
    let x = objs.spawn(Stub::new("x", log.clone()));
    objs.add_lt(adder_id);
    objs.add_lt(x);
    objs.proceed_logic(4, &mut ());
    assert_eq!(log.borrow().clone(), vec![("x", 4)]);
    assert!(objs.in_lt(future_id));
    log.borrow_mut().clear();
    objs.proceed_logic(7, &mut ());
    assert_eq!(log.borrow().clone(), vec![("x", 7), ("future", 7)]);
}

#[test]
fn find_objects_3d_hands_over_the_search_centre() {
    let log = new_log();
    let mut objs = Objects::new();
    let near = objs.spawn(Stub::new("a", log.clone()).placed(5.0, 0.0, 0.0));
    objs.spawn(Stub::new("b", log.clone()).placed(20.0, 0.0, 0.0));
    let centre = Pos3 { x: 1, y: 2, z: 3 };
    let hits = RefCell::new(Vec::new());
    let got = objs.find_objects_3d(
        centre,
        cells_of(0.0, 0.0, 10.0),
        TRACE_OBJECT,
        None,
        &within(0.0, 0.0, 10.0),
        &|pos: Pos3, id: ObjectId| {
            hits.borrow_mut().push((pos, id));
            Control::Continue
        },
    );
    assert!(got);
    assert_eq!(*hits.borrow(), vec![(centre, near)]);
}
