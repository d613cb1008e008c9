use breakout_core::components::ContactEventData;
use breakout_core::game::GameState;
use breakout_core::vec2::Vec2;
use breakout_core::world::WorldUpdateSystem;

fn started_naming(records: &[ContactEventData], other_handle: usize) -> Option<ContactEventData> {
    records.iter().copied().find(|r| match r {
        ContactEventData::Started { other_handle: oh, .. } => *oh == other_handle,
        ContactEventData::Stopped { .. } => false,
    })
}

#[test]
fn contact_symmetry_between_ball_and_paddle() {
    // Ball placed just above the paddle so that their boxes touch: after
    // one materialization both entities carry a started record naming the
    // other.
    let mut s = GameState::on_start(7);
    s.entities[1].transform = Vec2 { x: 640, y: 30 };
    let sys = WorldUpdateSystem;
    sys.run(&mut s);
    // Paddle owns proxy 3, ball owns proxy 4.
    let on_paddle = started_naming(&s.contacts[0].contacts, 4).expect("paddle record");
    match on_paddle {
        ContactEventData::Started { you_handle, you, other, .. } => {
            assert_eq!(you_handle, 3);
            assert_eq!(you, s.entities[0].id);
            assert_eq!(other, Some(s.entities[1].id));
        },
        ContactEventData::Stopped { .. } => panic!("expected a started record"),
    }
    let on_ball = started_naming(&s.contacts[1].contacts, 3).expect("ball record");
    match on_ball {
        ContactEventData::Started { you_handle, you, other, .. } => {
            assert_eq!(you_handle, 4);
            assert_eq!(you, s.entities[1].id);
            assert_eq!(other, Some(s.entities[0].id));
        },
        ContactEventData::Stopped { .. } => panic!("expected a started record"),
    }
}

#[test]
fn wall_contact_has_no_counterpart_entity() {
    // The arena walls own no game entity: the ball's record of a wall
    // contact carries an absent counterpart rather than an error.
    let mut s = GameState::on_start(7);
    s.entities[1].transform = Vec2 { x: 5, y: 360 };
    let sys = WorldUpdateSystem;
    sys.run(&mut s);
    let rec = started_naming(&s.contacts[1].contacts, 0).expect("wall record");
    match rec {
        ContactEventData::Started { you_handle, other, .. } => {
            assert_eq!(you_handle, 4);
            assert_eq!(other, None);
        },
        ContactEventData::Stopped { .. } => panic!("expected a started record"),
    }
}

#[test]
fn second_step_without_motion_reports_nothing_new() {
    let mut s = GameState::on_start(7);
    s.entities[1].transform = Vec2 { x: 640, y: 30 };
    let sys = WorldUpdateSystem;
    sys.run(&mut s);
    assert!(!s.contacts[1].contacts.is_empty());
    // Same positions again: the pair is still in contact, so no started
    // and no stopped events, hence empty records.
    sys.run(&mut s);
    assert!(s.contacts[0].contacts.is_empty());
    assert!(s.contacts[1].contacts.is_empty());
}

#[test]
fn moving_apart_yields_stopped_records() {
    let mut s = GameState::on_start(7);
    s.entities[1].transform = Vec2 { x: 640, y: 30 };
    let sys = WorldUpdateSystem;
    sys.run(&mut s);
    s.entities[1].transform = Vec2 { x: 640, y: 360 };
    sys.run(&mut s);
    let stopped = s.contacts[1].contacts.iter().any(|r| match r {
        ContactEventData::Stopped { other_handle, .. } => *other_handle == 3,
        ContactEventData::Started { .. } => false,
    });
    assert!(stopped, "expected a stopped record on the ball");
    let stopped_paddle = s.contacts[0].contacts.iter().any(|r| match r {
        ContactEventData::Stopped { other_handle, .. } => *other_handle == 4,
        ContactEventData::Started { .. } => false,
    });
    assert!(stopped_paddle, "expected a stopped record on the paddle");
}

#[test]
fn records_accumulate_on_corner_contact() {
    // A ball in the top right corner touches the top and right walls at
    // once: its record list holds one started record per wall.
    let mut s = GameState::on_start(7);
    s.entities[1].transform = Vec2 { x: 1275, y: 715 };
    let sys = WorldUpdateSystem;
    sys.run(&mut s);
    assert!(started_naming(&s.contacts[1].contacts, 1).is_some());
    assert!(started_naming(&s.contacts[1].contacts, 2).is_some());
    assert_eq!(s.contacts[1].contacts.len(), 2);
}
