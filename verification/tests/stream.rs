use imaging::stream::{StreamEnd, StreamState};

#[derive(Debug, PartialEq)]
enum Error {
    UnsupportedFilter,
    Internal(&'static str),
}

fn finish(state: &mut StreamState<Error, u8>) -> Result<(), Error> {
    match state.finish() {
        StreamEnd::Failed(err) => Err(err),
        StreamEnd::UnbalancedClips => Err(Error::Internal("unbalanced clip stack")),
        StreamEnd::UnbalancedGroups => Err(Error::Internal("unbalanced group stack")),
        StreamEnd::Balanced => Ok(()),
    }
}

#[test]
fn sk_canvas_sink_reports_clip_underflow() {
    let mut state: StreamState<Error, u8> = StreamState::new();
    assert!(!state.pop_clip(Error::Internal("pop_clip underflow")));
    assert!(matches!(
        finish(&mut state),
        Err(Error::Internal("pop_clip underflow"))
    ));
}

#[test]
fn sk_picture_recorder_sink_rejects_unbalanced_group() {
    let mut state: StreamState<Error, u8> = StreamState::new();
    assert!(state.accepts());
    state.push_group(1);
    assert!(matches!(
        finish(&mut state),
        Err(Error::Internal("unbalanced group stack"))
    ));
}

#[test]
fn hybrid_scene_sink_reports_clip_underflow() {
    let mut state: StreamState<Error, u8> = StreamState::new();
    state.pop_clip(Error::Internal("pop_clip underflow"));
    assert!(matches!(
        finish(&mut state),
        Err(Error::Internal("pop_clip underflow"))
    ));
}

#[test]
fn hybrid_scene_sink_rejects_filters() {
    let mut state: StreamState<Error, u8> = StreamState::new();
    // A group asking for one blur filter is refused: the error is recorded instead.
    assert!(!state.push_group_unless_filtered(1, 5, Error::UnsupportedFilter));
    assert_eq!(state.group_depth(), 0);
    assert!(matches!(finish(&mut state), Err(Error::UnsupportedFilter)));
}

#[test]
fn first_error_wins_and_blocks_later_stack_changes() {
    let mut state: StreamState<Error, u8> = StreamState::new();
    state.push_clip();
    state.set_error_once(Error::UnsupportedFilter);
    state.set_error_once(Error::Internal("later"));
    assert!(!state.accepts());
    assert!(!state.pop_clip(Error::Internal("pop_clip underflow")));
    assert_eq!(state.clip_depth(), 1);
    assert_eq!(state.pop_group(Error::Internal("pop_group underflow")), None);
    assert_eq!(finish(&mut state), Err(Error::UnsupportedFilter));
    // The error is handed back once; the open clip is reported next.
    assert_eq!(
        finish(&mut state),
        Err(Error::Internal("unbalanced clip stack"))
    );
}

#[test]
fn balanced_stream_finishes_cleanly() {
    let mut state: StreamState<Error, u8> = StreamState::new();
    state.push_clip();
    state.push_group(7);
    state.push_group(8);
    assert_eq!(state.group_depth(), 2);
    assert_eq!(state.pop_group(Error::Internal("pop_group underflow")), Some(8));
    assert_eq!(state.pop_group(Error::Internal("pop_group underflow")), Some(7));
    assert!(state.pop_clip(Error::Internal("pop_clip underflow")));
    assert_eq!(finish(&mut state), Ok(()));
    assert_eq!(
        state.pop_group(Error::Internal("pop_group underflow")),
        None
    );
    assert_eq!(
        finish(&mut state),
        Err(Error::Internal("pop_group underflow"))
    );
}

#[test]
fn groups_without_filters_open_until_an_error_is_recorded() {
    let mut state: StreamState<Error, u8> = StreamState::new();
    assert!(state.push_group_unless_filtered(0, 3, Error::UnsupportedFilter));
    assert_eq!(state.group_depth(), 1);
    assert!(!state.pop_clip(Error::Internal("pop_clip underflow")));
    // Once an error is recorded nothing opens, and the first error stays.
    assert!(!state.push_group_unless_filtered(0, 4, Error::UnsupportedFilter));
    assert!(!state.push_group_unless_filtered(2, 4, Error::UnsupportedFilter));
    assert_eq!(state.group_depth(), 1);
    assert!(matches!(
        finish(&mut state),
        Err(Error::Internal("pop_clip underflow"))
    ));
}
