use videoplayer::input_handler::{
    play_controls_step, seek_target, ControlAction, Key, PlayState, SEEK_STEP_NS,
};
use videoplayer::term_size::{poll_step, size_or_default};
use videoplayer::terminal_sink::diff::RenderedFrame;
use videoplayer::terminal_sink::resize::Resizer;
use videoplayer::terminal_sink::video_pipe::{Frame, PullStep, RenderState};
use videoplayer::terminal_sink::{decode_size, pack_size, render_sample, StaticSize, SIZE_TAG_BIT};
use videoplayer::{is_truthy, parse_size, parse_u16, SizeParseError};

fn frame_with_marker(marker: u8) -> Frame {
    Frame::new(1, 1, vec![marker, 0, 0])
}

#[test]
fn overrun_keeps_only_the_latest_sample() {
    let mut slot = RenderState::new();
    for k in 0..1000u32 {
        let notify = slot.push_sample(frame_with_marker((k % 251) as u8)).expect("open slot");
        // only the first push finds the slot without an unpulled sample
        assert_eq!(notify, k == 0);
    }
    match slot.try_pull() {
        PullStep::Got(f) => {
            assert_eq!(f.data[0], (999 % 251) as u8);
        }
        _ => panic!("a sample was pending"),
    }
    // the slot now holds the sample as pulled: pulling again waits
    assert!(matches!(slot.try_pull(), PullStep::Wait));
}

#[test]
fn closed_slot_stays_closed() {
    let mut slot = RenderState::new();
    slot.push_sample(frame_with_marker(1)).unwrap();
    slot.close();
    assert!(slot.push_sample(frame_with_marker(2)).is_err());
    assert!(matches!(slot.try_pull(), PullStep::Disconnected));
    assert!(matches!(slot.try_pull(), PullStep::Disconnected));
    assert!(slot.reload_sample().is_err());
}

#[test]
fn reload_makes_held_sample_pullable_again() {
    let mut slot = RenderState::new();
    // reloading an empty slot is a quiet no-op
    assert_eq!(slot.reload_sample(), Ok(false));
    slot.push_sample(frame_with_marker(7)).unwrap();
    match slot.try_pull() {
        PullStep::Got(f) => assert_eq!(f.data[0], 7),
        _ => panic!("a sample was pending"),
    }
    assert!(matches!(slot.try_pull(), PullStep::Wait));
    // a size change while paused asks for the same sample again
    assert_eq!(slot.reload_sample(), Ok(true));
    match slot.try_pull() {
        PullStep::Got(f) => assert_eq!(f.data[0], 7),
        _ => panic!("the reloaded sample was pending"),
    }
}

#[test]
fn seek_clamps_at_both_ends() {
    let dur = 100 * SEEK_STEP_NS;
    // within five seconds of the end, a forward seek lands on the duration
    assert_eq!(seek_target(dur - 3, Some(dur), true), dur);
    assert_eq!(seek_target(dur - SEEK_STEP_NS, Some(dur), true), dur);
    assert_eq!(seek_target(10, Some(dur), true), 10 + SEEK_STEP_NS);
    // within five seconds of the start, a backward seek lands on zero
    assert_eq!(seek_target(3, None, false), 0);
    assert_eq!(seek_target(SEEK_STEP_NS, None, false), 0);
    assert_eq!(seek_target(SEEK_STEP_NS + 4, None, false), 4);
    // with no known duration a forward seek saturates
    assert_eq!(seek_target(u64::MAX - 1, None, true), u64::MAX);
}

#[test]
fn keys_map_to_pipeline_actions() {
    assert_eq!(
        play_controls_step(PlayState::Playing, Key::Right),
        (PlayState::Playing, ControlAction::SeekForward)
    );
    assert_eq!(
        play_controls_step(PlayState::Playing, Key::Left),
        (PlayState::Playing, ControlAction::SeekBackward)
    );
    assert_eq!(
        play_controls_step(PlayState::Playing, Key::Char(' ')),
        (PlayState::Paused, ControlAction::SetState(PlayState::Paused))
    );
    assert_eq!(
        play_controls_step(PlayState::Paused, Key::Char(' ')),
        (PlayState::Playing, ControlAction::SetState(PlayState::Playing))
    );
    assert_eq!(
        play_controls_step(PlayState::Paused, Key::Up),
        (PlayState::Playing, ControlAction::SetState(PlayState::Playing))
    );
    assert_eq!(
        play_controls_step(PlayState::Playing, Key::Up),
        (PlayState::Playing, ControlAction::Ignore)
    );
    assert_eq!(
        play_controls_step(PlayState::Playing, Key::Down),
        (PlayState::Paused, ControlAction::SetState(PlayState::Paused))
    );
    for quit in [Key::Char('q'), Key::Char('Q'), Key::Esc, Key::Ctrl('c')] {
        assert_eq!(
            play_controls_step(PlayState::Playing, quit),
            (PlayState::Playing, ControlAction::PostEos)
        );
    }
    assert_eq!(
        play_controls_step(PlayState::Playing, Key::Char('z')),
        (PlayState::Playing, ControlAction::Ignore)
    );
    assert_eq!(
        play_controls_step(PlayState::Playing, Key::Ctrl('d')),
        (PlayState::Playing, ControlAction::Ignore)
    );
}

#[test]
fn size_cache_reports_a_store_once() {
    let word = pack_size((80, 24));
    assert_eq!(decode_size(word), ((80, 24), true));
    let cleared = word & !SIZE_TAG_BIT;
    assert_eq!(decode_size(cleared), ((80, 24), false));
    let word = pack_size((u16::MAX, 1));
    assert_eq!(decode_size(word), ((u16::MAX, 1), true));
}

#[test]
fn static_size_changes_only_on_first_load() {
    let mut loader = StaticSize::new((120, 40));
    assert_eq!(loader.load(), ((120, 40), true));
    assert_eq!(loader.load(), ((120, 40), false));
    assert_eq!(loader.load(), ((120, 40), false));
}

#[test]
fn poller_falls_back_and_detects_changes() {
    assert_eq!(size_or_default(None), (1, 1));
    assert_eq!(size_or_default(Some((9, 9))), (9, 9));
    assert_eq!(poll_step((5, 5), Some((6, 5))), ((6, 5), true));
    assert_eq!(poll_step((6, 5), Some((6, 5))), ((6, 5), false));
    assert_eq!(poll_step((1, 1), None), ((1, 1), false));
    assert_eq!(poll_step((2, 2), None), ((1, 1), true));
}

#[test]
fn truthy_flags_read_y_yes_or_empty() {
    assert!(is_truthy(b"y"));
    assert!(is_truthy(b"YES"));
    assert!(is_truthy(b"  Yes\t"));
    assert!(is_truthy(b""));
    assert!(is_truthy(b"   "));
    assert!(!is_truthy(b"no"));
    assert!(!is_truthy(b"yess"));
    assert!(!is_truthy(b"n"));
    assert!(!is_truthy(b"y e s"));
}

#[test]
fn size_argument_parses_width_x_height() {
    assert_eq!(parse_size(b"1280x720"), Ok((1280, 720)));
    assert_eq!(parse_size(b"+12x+13"), Ok((12, 13)));
    assert_eq!(parse_size(b"1280"), Err(SizeParseError::MissingSeparator));
    assert_eq!(parse_size(b"ax5"), Err(SizeParseError::BadWidth));
    assert_eq!(parse_size(b"70000x5"), Err(SizeParseError::BadWidth));
    assert_eq!(parse_size(b"12x"), Err(SizeParseError::BadHeight));
    assert_eq!(parse_size(b"12x-3"), Err(SizeParseError::BadHeight));
    assert_eq!(parse_size(b"x5"), Err(SizeParseError::BadWidth));
}

#[test]
fn sixteen_bit_parsing_matches_std() {
    for input in ["0", "65535", "65536", "+17", "", "+", "1a", "007", "99999999999999999999"] {
        let expected = input.parse::<u16>().ok();
        assert_eq!(parse_u16(input.as_bytes()), expected, "input {input:?}");
    }
}

#[test]
fn pause_resize_rerenders_held_sample_in_full() {
    // a paused pipeline holds one pulled sample
    let mut slot = RenderState::new();
    let mut bytes = Vec::new();
    for k in 0..4 * 4 * 3 {
        bytes.push((k * 7 % 256) as u8);
    }
    slot.push_sample(Frame::new(4, 4, bytes)).unwrap();
    let first = match slot.try_pull() {
        PullStep::Got(f) => f,
        _ => panic!("a sample was pending"),
    };

    let mut resizer = Resizer::new();
    let mut frame = RenderedFrame::new();
    let mut out = Vec::new();
    render_sample(first.width, first.height, &first.data, (4, 2), true, &mut out, &mut resizer, &mut frame)
        .unwrap();

    // the terminal size changes while paused: the updater marks the sample
    // unpulled, the renderer pulls it again and repaints in full
    assert_eq!(slot.reload_sample(), Ok(true));
    let again = match slot.try_pull() {
        PullStep::Got(f) => f,
        _ => panic!("the reloaded sample was pending"),
    };
    assert_eq!(again.data, first.data);

    let mut out = Vec::new();
    render_sample(again.width, again.height, &again.data, (8, 4), true, &mut out, &mut resizer, &mut frame)
        .unwrap();
    assert!(out.starts_with(b"\x1b[2J"), "a size change repaints from a clear");
    assert!(out.ends_with(b"\x1b[0m"));
}
