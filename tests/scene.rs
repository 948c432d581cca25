use std::time::Duration;

use bronze::geometry::{Circle, Movable, Rect, Shape, ShapeRef};
use bronze::scene::{broad_phase, remove_flagged, Collision, Entity, Scene};

#[derive(Default)]
struct Log {
    calls: Vec<String>,
}

struct Ball {
    name: &'static str,
    hitbox: Shape,
    velocity: (i64, i64),
    hits: u32,
    remove: bool,
    bounced: bool,
}

struct Wall {
    name: &'static str,
    hitbox: Rect,
    hits: u32,
    remove: bool,
    saw_bounce: bool,
}

fn ball(name: &'static str, hitbox: Shape) -> Ball {
    Ball { name, hitbox, velocity: (0, 0), hits: 0, remove: false, bounced: false }
}

fn wall(name: &'static str, hitbox: Rect) -> Wall {
    Wall { name, hitbox, hits: 0, remove: false, saw_bounce: false }
}

impl Entity<Log> for Ball {
    fn bbox(&self) -> ShapeRef<'_> {
        self.hitbox.as_ref()
    }

    fn should_be_removed(&self) -> bool {
        self.remove
    }

    fn update(&mut self, _ctx: &mut Log, frame_time: Duration) {
        let ms = frame_time.as_millis() as i64;
        self.hitbox.move_by(self.velocity.0 * ms / 1000, self.velocity.1 * ms / 1000);
    }
}

impl Entity<Log> for Wall {
    fn bbox(&self) -> ShapeRef<'_> {
        self.hitbox.as_ref()
    }

    fn should_be_removed(&self) -> bool {
        self.remove
    }
}

impl Collision<Ball, Log> for Ball {
    fn on_collision(&mut self, other: &Ball, ctx: &mut Log) {
        self.hits += 1;
        self.bounced = true;
        ctx.calls.push(format!("{}>{}:{}", self.name, other.name, other.bounced));
    }
}

impl Collision<Wall, Log> for Ball {
    fn on_collision(&mut self, other: &Wall, ctx: &mut Log) {
        self.hits += 1;
        self.bounced = true;
        ctx.calls.push(format!("{}>{}", self.name, other.name));
    }
}

impl Collision<Ball, Log> for Wall {
    fn on_collision(&mut self, other: &Ball, ctx: &mut Log) {
        self.hits += 1;
        self.saw_bounce = other.bounced;
        ctx.calls.push(format!("{}>{}", self.name, other.name));
    }
}

fn px(v: i64) -> i64 {
    v * 1000
}

fn ext(v: u32) -> u32 {
    v * 1000
}

#[test]
fn static_entities_are_never_paired() {
    let mut scene: Scene<Wall, Ball, Log> = Scene::new();
    scene.add_static(wall("w1", Rect::new(0, 0, ext(10), ext(10))));
    scene.add_static(wall("w2", Rect::new(px(5), px(5), ext(10), ext(10))));
    scene.add_static(wall("w3", Rect::new(px(2), px(2), ext(10), ext(10))));
    let mut log = Log::default();
    let pairs = scene.collisions(&mut log);
    assert!(pairs.dynamic.is_empty() && pairs.dynamic_static.is_empty());
    assert!(log.calls.is_empty());
    assert!(scene.static_entities().iter().all(|w| w.hits == 0));
}

#[test]
fn both_directions_fire_once_in_order() {
    let mut scene: Scene<Wall, Ball, Log> = Scene::new();
    scene.add_dynamic(ball("a", Shape::Circle(Circle::new(0, 0, ext(5)))));
    scene.add_static(wall("b", Rect::new(px(8), px(8), ext(10), ext(10))));
    let mut log = Log::default();
    let pairs = scene.collisions(&mut log);
    assert!(pairs.dynamic.is_empty());
    assert_eq!(pairs.dynamic_static, vec![(0, 0)]);
    assert_eq!(log.calls, vec!["a>b".to_string(), "b>a".to_string()]);
    assert_eq!(scene.dynamic_entities()[0].hits, 1);
    assert_eq!(scene.static_entities()[0].hits, 1);
    assert!(scene.static_entities()[0].saw_bounce);
}

#[test]
fn dynamic_pairs_fire_in_index_order() {
    let mut scene: Scene<Wall, Ball, Log> = Scene::new();
    scene.add_dynamic(ball("x", Shape::Rect(Rect::new(0, 0, ext(10), ext(10)))));
    scene.add_dynamic(ball("y", Shape::Rect(Rect::new(px(5), 0, ext(10), ext(10)))));
    scene.add_dynamic(ball("z", Shape::Rect(Rect::new(px(9), 0, ext(10), ext(10)))));
    scene.add_dynamic(ball("far", Shape::Rect(Rect::new(px(500), 0, ext(1), ext(1)))));
    let mut log = Log::default();
    let pairs = scene.collisions(&mut log);
    assert_eq!(pairs.dynamic, vec![(0, 1), (0, 2), (1, 2)]);
    assert_eq!(
        log.calls,
        vec![
            "x>y:false", "y>x:true", "x>z:false", "z>x:true", "y>z:true", "z>y:true"
        ]
    );
    let hits: Vec<u32> = scene.dynamic_entities().iter().map(|b| b.hits).collect();
    assert_eq!(hits, vec![2, 2, 2, 0]);
}

#[test]
fn second_callback_sees_the_first() {
    let mut scene: Scene<Wall, Ball, Log> = Scene::new();
    scene.add_dynamic(ball("a", Shape::Circle(Circle::new(0, 0, ext(2)))));
    scene.add_dynamic(ball("b", Shape::Circle(Circle::new(px(3), 0, ext(2)))));
    let mut log = Log::default();
    scene.collisions(&mut log);
    assert_eq!(log.calls, vec!["a>b:false".to_string(), "b>a:true".to_string()]);
}

#[test]
fn post_update_keeps_everyone_when_nobody_leaves() {
    let mut scene: Scene<Wall, Ball, Log> = Scene::new();
    scene.add_dynamic(ball("a", Shape::Circle(Circle::new(0, 0, 1))));
    scene.add_dynamic(ball("b", Shape::Circle(Circle::new(9, 9, 1))));
    scene.add_static(wall("w", Rect::new(0, 0, 1, 1)));
    let log = Log::default();
    scene.post_update(&log);
    scene.post_update(&log);
    assert_eq!(scene.dynamic_entities().len(), 2);
    assert_eq!(scene.static_entities().len(), 1);
}

#[test]
fn post_update_removes_the_flagged_entity() {
    let mut scene: Scene<Wall, Ball, Log> = Scene::new();
    scene.add_dynamic(ball("a", Shape::Circle(Circle::new(0, 0, 1))));
    let mut b = ball("b", Shape::Circle(Circle::new(9, 9, 1)));
    b.remove = true;
    scene.add_dynamic(b);
    scene.add_dynamic(ball("c", Shape::Circle(Circle::new(20, 20, 1))));
    let mut w = wall("w", Rect::new(0, 0, 1, 1));
    w.remove = true;
    scene.add_static(w);
    scene.add_static(wall("v", Rect::new(0, 0, 1, 1)));
    let log = Log::default();
    scene.post_update(&log);
    let names: Vec<&str> = scene.dynamic_entities().iter().map(|b| b.name).collect();
    assert_eq!(names, vec!["a", "c"]);
    let walls: Vec<&str> = scene.static_entities().iter().map(|w| w.name).collect();
    assert_eq!(walls, vec!["v"]);
}

#[test]
fn ball_hits_wall_after_one_step() {
    let mut scene: Scene<Wall, Ball, Log> = Scene::new();
    let mut b = ball("ball", Shape::Circle(Circle::new(px(100), px(100), ext(8))));
    b.velocity = (px(50), 0);
    scene.add_dynamic(b);
    scene.add_static(wall("wall", Rect::new(px(108), px(92), ext(20), ext(20))));
    let mut log = Log::default();
    scene.pre_update(&log);
    scene.update(&mut log, Duration::from_millis(200));
    assert_eq!(
        scene.dynamic_entities()[0].hitbox,
        Shape::Circle(Circle::new(px(110), px(100), ext(8)))
    );
    scene.collisions(&mut log);
    scene.post_update(&log);
    assert_eq!(log.calls, vec!["ball>wall".to_string(), "wall>ball".to_string()]);
    assert_eq!(scene.static_entities()[0].hits, 1);
}

#[test]
fn remove_by_index_swaps_in_the_last() {
    let mut scene: Scene<Wall, Ball, Log> = Scene::new();
    scene.add_static(wall("w0", Rect::new(0, 0, 1, 1)));
    scene.add_static(wall("w1", Rect::new(0, 0, 1, 1)));
    scene.add_static(wall("w2", Rect::new(0, 0, 1, 1)));
    let out = scene.remove_static(0).unwrap();
    assert_eq!(out.name, "w0");
    let names: Vec<&str> = scene.static_entities().iter().map(|w| w.name).collect();
    assert_eq!(names, vec!["w2", "w1"]);
    assert!(scene.remove_static(2).is_none());
    scene.add_dynamic(ball("d", Shape::Circle(Circle::new(0, 0, 1))));
    assert_eq!(scene.remove_dynamic(0).unwrap().name, "d");
    assert!(scene.remove_dynamic(0).is_none());
    assert_eq!(scene.static_entities().len(), 2);
}

#[test]
fn entities_without_extent_never_collide() {
    struct Hud;
    impl Entity<Log> for Hud {
        fn bbox(&self) -> ShapeRef<'_> {
            ShapeRef::Empty
        }
    }
    impl Collision<Hud, Log> for Hud {
        fn on_collision(&mut self, _other: &Hud, ctx: &mut Log) {
            ctx.calls.push("hud".to_string());
        }
    }
    let mut scene: Scene<Hud, Hud, Log> = Scene::new();
    scene.add_dynamic(Hud);
    scene.add_dynamic(Hud);
    scene.add_static(Hud);
    let mut log = Log::default();
    scene.input(&bronze::input::InputManager::new());
    scene.collisions(&mut log);
    assert!(log.calls.is_empty());
}

#[test]
fn broad_phase_lists_pairs_in_order() {
    let a = Rect::new(0, 0, ext(10), ext(10));
    let b = Circle::new(px(9), 0, ext(1));
    let c = Rect::new(px(100), px(100), ext(1), ext(1));
    let w = Rect::new(px(100), px(100), ext(5), ext(5));
    let dynamic = [a.as_ref(), b.as_ref(), c.as_ref(), ShapeRef::Empty];
    let statics = [w.as_ref(), a.as_ref()];
    let pairs = broad_phase(&dynamic, &statics);
    assert_eq!(pairs.dynamic, vec![(0, 1)]);
    assert_eq!(pairs.dynamic_static, vec![(0, 1), (1, 1), (2, 0)]);
    let none = broad_phase(&[], &statics);
    assert!(none.dynamic.is_empty() && none.dynamic_static.is_empty());
}

#[test]
fn remove_flagged_keeps_order() {
    let mut v = vec![1, 2, 3, 4, 5];
    remove_flagged(&mut v, &vec![false, true, false, true, false]);
    assert_eq!(v, vec![1, 3, 5]);
    let mut w = vec![7, 8];
    remove_flagged(&mut w, &vec![false, false]);
    assert_eq!(w, vec![7, 8]);
    let mut e: Vec<u8> = Vec::new();
    remove_flagged(&mut e, &Vec::new());
    assert!(e.is_empty());
}
