use lana_khora::frame::{Action, Frames};

fn frame(state: &mut Frames, fails: &[Action]) -> Vec<Action> {
    let mut trace: Vec<Action> = Vec::new();
    let mut action = state.begin();
    while action != Action::Stop {
        trace.push(action);
        action = state.next(action, !fails.contains(&action));
    }
    trace
}

#[test]
fn first_frame_sets_everything_up() {
    let mut s = Frames::new();
    assert_eq!(
        frame(&mut s, &[]),
        vec![
            Action::FindDevice,
            Action::BuildLane,
            Action::InitLane,
            Action::FindContext,
            Action::FindTarget,
            Action::Record,
            Action::Finish,
            Action::Submit,
        ]
    );
    assert_eq!(s, Frames { frames: 1, built: true, inited: true });
}

#[test]
fn later_frames_only_draw() {
    let mut s = Frames::new();
    frame(&mut s, &[]);
    assert_eq!(
        frame(&mut s, &[]),
        vec![
            Action::FindDevice,
            Action::FindContext,
            Action::FindTarget,
            Action::Record,
            Action::Finish,
            Action::Submit,
        ]
    );
}

#[test]
fn missing_things_end_the_frame() {
    for bad in [Action::FindDevice, Action::InitLane, Action::FindContext, Action::FindTarget, Action::Finish] {
        let mut s = Frames::new();
        let trace = frame(&mut s, &[bad]);
        assert_eq!(trace.last(), Some(&bad));
        assert!(!trace.contains(&Action::Submit));
    }
}

#[test]
fn failed_draw_is_submitted_all_the_same() {
    let mut s = Frames::new();
    assert_eq!(frame(&mut s, &[Action::Record]).last(), Some(&Action::Submit));
}

#[test]
fn setting_up_is_tried_again() {
    let mut s = Frames::new();
    frame(&mut s, &[Action::InitLane]);
    assert_eq!(s, Frames { frames: 1, built: true, inited: false });
    let trace = frame(&mut s, &[]);
    assert_eq!(trace[1], Action::InitLane);
    assert!(!trace.contains(&Action::BuildLane));
    assert!(s.inited);
}

#[test]
fn first_three_frames_are_reported() {
    let mut s = Frames::new();
    let verbose: Vec<bool> = (0..5)
        .map(|_| {
            frame(&mut s, &[]);
            s.verbose()
        })
        .collect();
    assert_eq!(verbose, vec![true, true, true, false, false]);
    assert_eq!(s.frames, 5);
}
