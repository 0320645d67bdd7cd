use batchrun::supervisor::{
    classify_exit, output_event, runner_step, App, AppEvent, ChildPoll, Effect, Key, PaneSize,
    ProcessStatus, RunnerStep, Scroll, TitleColor,
};

fn batch(args: &[&str]) -> AppEvent {
    AppEvent::NewBatch(args.iter().map(|s| s.to_string()).collect())
}

fn output(pid: usize, n: usize) -> AppEvent {
    AppEvent::Output { pid, lines: (0..n).map(|i| format!("line {i}\n")).collect() }
}

fn press(app: &mut App, key: Key) {
    assert_eq!(app.apply_event(AppEvent::KeyPress(key)), Effect::Nothing);
}

#[test]
fn new_batch_appends_one_record_and_selects_it() {
    let mut app = App::new();
    assert_eq!(app.process_count(), 0);
    assert_eq!(app.apply_event(batch(&["a", "b"])), Effect::Spawn(0));
    assert_eq!(app.process_count(), 1);
    assert_eq!(app.render().selected, 0);
    assert_eq!(app.args(0), &vec!["a".to_string(), "b".to_string()]);
    assert_eq!(app.status(0), None);
    assert!(app.output_lines(0).is_empty());
    assert_eq!(app.apply_event(batch(&["c"])), Effect::Spawn(1));
    assert_eq!(app.process_count(), 2);
    assert_eq!(app.render().selected, 1);
}

#[test]
fn exit_code_seven_is_failure_seven() {
    let mut app = App::new();
    app.apply_event(batch(&["x"]));
    let status = classify_exit(false, Some(7));
    assert_eq!(status, ProcessStatus::Failure(7));
    assert_eq!(app.apply_event(AppEvent::Exited { pid: 0, status }), Effect::Join(0));
    assert_eq!(app.status(0), Some(ProcessStatus::Failure(7)));
}

#[test]
fn killed_by_signal_is_signal() {
    let mut app = App::new();
    app.apply_event(batch(&["x"]));
    let status = classify_exit(false, None);
    assert_eq!(status, ProcessStatus::Signal);
    app.apply_event(AppEvent::Exited { pid: 0, status });
    assert_eq!(app.status(0), Some(ProcessStatus::Signal));
}

#[test]
fn success_ignores_code() {
    assert_eq!(classify_exit(true, Some(0)), ProcessStatus::Success);
}

#[test]
fn final_status_is_set_once_and_joined_once() {
    let mut app = App::new();
    app.apply_event(batch(&["x"]));
    assert_eq!(app.apply_event(AppEvent::Exited { pid: 0, status: ProcessStatus::Success }), Effect::Join(0));
    assert_eq!(
        app.apply_event(AppEvent::Exited { pid: 0, status: ProcessStatus::Failure(1) }),
        Effect::Nothing
    );
    assert_eq!(app.status(0), Some(ProcessStatus::Success));
}

#[test]
fn output_after_exit_is_ignored() {
    let mut app = App::new();
    app.apply_event(batch(&["x"]));
    app.apply_event(output(0, 2));
    app.apply_event(AppEvent::Exited { pid: 0, status: ProcessStatus::Success });
    app.apply_event(output(0, 3));
    assert_eq!(app.output_lines(0).len(), 2);
}

#[test]
fn output_of_selected_keeps_tail_in_view() {
    let mut app = App::new();
    app.apply_event(batch(&["x"]));
    app.apply_event(output(0, 8));
    let frame = app.render();
    assert_eq!(frame.panes[0].scroll, Some(Scroll { line: 3, column: 0 }));
    assert_eq!(frame.panes[0].line_count, 8);
}

#[test]
fn expanded_tail_uses_viewport_height() {
    let mut app = App::new();
    app.set_viewport_height(4);
    app.apply_event(batch(&["x"]));
    press(&mut app, Key::Char('/'));
    app.apply_event(output(0, 10));
    let frame = app.render();
    assert_eq!(frame.panes.len(), 1);
    assert_eq!(frame.panes[0].size, PaneSize::Fill);
    assert_eq!(frame.panes[0].scroll, Some(Scroll { line: 6, column: 0 }));
}

#[test]
fn output_of_other_process_keeps_scroll() {
    let mut app = App::new();
    app.apply_event(batch(&["x"]));
    app.apply_event(batch(&["y"]));
    app.apply_event(output(0, 9));
    let frame = app.render();
    assert_eq!(frame.panes[1].scroll, Some(Scroll { line: 0, column: 0 }));
    assert_eq!(frame.panes[0].scroll, None);
}

#[test]
fn selection_moves_and_is_clamped() {
    let mut app = App::new();
    press(&mut app, Key::PageUp);
    press(&mut app, Key::PageDown);
    assert_eq!(app.render().selected, 0);
    for _ in 0..3 {
        app.apply_event(batch(&["x"]));
    }
    assert_eq!(app.render().selected, 2);
    press(&mut app, Key::PageDown);
    assert_eq!(app.render().selected, 2);
    press(&mut app, Key::PageUp);
    assert_eq!(app.render().selected, 1);
    press(&mut app, Key::PageUp);
    press(&mut app, Key::PageUp);
    assert_eq!(app.render().selected, 0);
}

#[test]
fn vertical_scroll_is_clamped_to_output() {
    let mut app = App::new();
    app.apply_event(batch(&["x"]));
    app.apply_event(output(0, 3));
    press(&mut app, Key::Down);
    press(&mut app, Key::Down);
    press(&mut app, Key::Down);
    press(&mut app, Key::Down);
    assert_eq!(app.render().panes[0].scroll, Some(Scroll { line: 2, column: 0 }));
    press(&mut app, Key::Home);
    assert_eq!(app.render().panes[0].scroll, Some(Scroll { line: 0, column: 0 }));
    press(&mut app, Key::Up);
    assert_eq!(app.render().panes[0].scroll, Some(Scroll { line: 0, column: 0 }));
    press(&mut app, Key::End);
    assert_eq!(app.render().panes[0].scroll, Some(Scroll { line: 2, column: 0 }));
    press(&mut app, Key::Up);
    assert_eq!(app.render().panes[0].scroll, Some(Scroll { line: 1, column: 0 }));
}

#[test]
fn horizontal_scroll_steps_by_four_unless_wrapping() {
    let mut app = App::new();
    app.apply_event(batch(&["x"]));
    press(&mut app, Key::Right);
    press(&mut app, Key::Right);
    assert_eq!(app.render().panes[0].scroll, Some(Scroll { line: 0, column: 8 }));
    press(&mut app, Key::Left);
    assert_eq!(app.render().panes[0].scroll, Some(Scroll { line: 0, column: 4 }));
    press(&mut app, Key::Char('w'));
    assert!(app.wrap());
    assert_eq!(app.render().panes[0].scroll, Some(Scroll { line: 0, column: 4 }));
    press(&mut app, Key::Right);
    assert_eq!(app.render().panes[0].scroll, Some(Scroll { line: 0, column: 0 }));
}

#[test]
fn quit_keys_set_exit() {
    let mut app = App::new();
    press(&mut app, Key::Char('x'));
    assert!(!app.should_exit());
    press(&mut app, Key::Char('q'));
    assert!(app.should_exit());
    let mut app = App::new();
    press(&mut app, Key::Esc);
    assert!(app.should_exit());
}

#[test]
fn key_history_keeps_latest_eight() {
    let mut app = App::new();
    for c in "abcdefghij".chars() {
        press(&mut app, Key::Char(c));
    }
    let keys: Vec<Key> = "cdefghij".chars().map(Key::Char).collect();
    assert_eq!(app.recent_keys(), &keys);
}

#[test]
fn overview_pane_sizes_and_colours() {
    let mut app = App::new();
    app.apply_event(batch(&["ok"]));
    app.apply_event(output(0, 9));
    app.apply_event(AppEvent::Exited { pid: 0, status: ProcessStatus::Success });
    app.apply_event(batch(&["bad"]));
    app.apply_event(output(1, 2));
    app.apply_event(AppEvent::Exited { pid: 1, status: ProcessStatus::Failure(2) });
    app.apply_event(batch(&["running"]));
    let frame = app.render();
    assert_eq!(frame.selected, 2);
    assert_eq!(frame.panes.len(), 3);
    assert_eq!(frame.panes[0].size, PaneSize::Exact(1));
    assert_eq!(frame.panes[0].color, TitleColor::Positive);
    assert_eq!(frame.panes[1].size, PaneSize::AtMost(3));
    assert_eq!(frame.panes[1].color, TitleColor::Attention);
    assert_eq!(frame.panes[2].size, PaneSize::AtMost(1));
    assert_eq!(frame.panes[2].color, TitleColor::Neutral);
    press(&mut app, Key::PageUp);
    press(&mut app, Key::PageUp);
    let frame = app.render();
    assert_eq!(frame.panes[0].size, PaneSize::AtMost(6));
    assert!(frame.panes[0].scroll.is_some());
}

#[test]
fn rendering_twice_gives_the_same_frame() {
    let mut app = App::new();
    app.apply_event(batch(&["a"]));
    app.apply_event(output(0, 7));
    app.apply_event(batch(&["b"]));
    assert_eq!(app.render(), app.render());
    press(&mut app, Key::Char('/'));
    assert_eq!(app.render(), app.render());
}

#[test]
fn expanded_without_processes_has_no_pane() {
    let mut app = App::new();
    press(&mut app, Key::Char('/'));
    assert!(app.render().panes.is_empty());
}

#[test]
fn runner_steps() {
    assert_eq!(runner_step(ChildPoll::Running), RunnerStep::ReadLine);
    assert_eq!(
        runner_step(ChildPoll::Exited { success: false, code: Some(7) }),
        RunnerStep::Finish(ProcessStatus::Failure(7))
    );
    assert_eq!(runner_step(ChildPoll::WaitFailed), RunnerStep::Abort);
}

#[test]
fn empty_read_makes_no_event() {
    assert!(output_event(3, 0, String::new()).is_none());
    match output_event(3, 4, "abc\n".to_string()) {
        Some(AppEvent::Output { pid, lines }) => {
            assert_eq!(pid, 3);
            assert_eq!(lines, vec!["abc\n"]);
        }
        _ => panic!("expected an output event"),
    }
}
