use imaging::record::Scene;
use imaging::validation::{
    default_validation_hook, image_data_len_ok, ValidatingSink, ValidationDecision, ValidationError,
};

use peniko::ImageFormat;

type TestScene = Scene<u32, u32, u32>;

#[test]
fn validating_sink_records_nan_and_aborts_by_default() {
    let inner = TestScene::new();
    let mut sink = ValidatingSink::new(inner);
    // The library keeps the sink's state; the floating-point payload checks run outside it and
    // report what they find through `violate`. A draw whose transform holds NaN is reported as
    // this non-finite error, and the draw is not forwarded.
    let aborted = sink.violate(ValidationError::NonFinite {
        what: "Draw::Fill::transform",
    });
    assert!(aborted);
    assert!(matches!(
        sink.first_error(),
        Some(ValidationError::NonFinite { .. })
    ));
    assert!(sink.inner().commands().is_empty());
    assert!(sink.is_aborted());
}

#[test]
fn validating_sink_hook_can_continue() {
    let inner = TestScene::new();
    let mut sink = ValidatingSink::with_hook(inner, |_err: &ValidationError| {
        ValidationDecision::Continue
    });
    // As above, the NaN transform of a draw is reported through `violate`; the hook continues,
    // so the draw is forwarded.
    let aborted = sink.violate(ValidationError::NonFinite {
        what: "Draw::Fill::transform",
    });
    assert!(!aborted);
    // Continuing forwards the draw.
    sink.inner_mut().draw(7);
    assert!(sink.first_error().is_some());
    assert_eq!(sink.inner().commands().len(), 1);
}

#[test]
fn finish_catches_unclosed_stacks() {
    let inner = TestScene::new();
    let mut sink = ValidatingSink::new(inner);
    if sink.accept_push_clip() {
        sink.inner_mut().push_clip(1);
    }
    assert_eq!(
        sink.finish(),
        Err(ValidationError::UnclosedClips { depth: 1 })
    );
    assert_eq!(
        sink.first_error(),
        Some(&ValidationError::UnclosedClips { depth: 1 })
    );
}

#[test]
fn default_hook_aborts() {
    assert_eq!(
        default_validation_hook(&ValidationError::InvalidAlpha),
        ValidationDecision::Abort
    );
}

#[test]
fn finish_reports_unclosed_groups_after_clips_balance() {
    let mut sink = ValidatingSink::new(TestScene::new());
    assert!(sink.accept_push_group());
    assert!(sink.accept_push_group());
    assert!(sink.accept_push_clip());
    assert!(sink.accept_pop_clip());
    assert_eq!(
        sink.finish(),
        Err(ValidationError::UnclosedGroups { depth: 2 })
    );
    assert!(sink.accept_pop_group());
    assert!(sink.accept_pop_group());
    // The first error stays recorded after the stacks balance.
    assert_eq!(sink.finish(), Ok(()));
    assert_eq!(
        sink.first_error(),
        Some(&ValidationError::UnclosedGroups { depth: 2 })
    );
}

#[test]
fn pop_without_push_is_an_underflow_and_aborts() {
    let mut sink = ValidatingSink::new(TestScene::new());
    assert!(!sink.accept_pop_clip());
    assert_eq!(
        sink.first_error(),
        Some(&ValidationError::StackUnderflow { what: "clip" })
    );
    assert!(sink.is_aborted());
    // Once aborted nothing is forwarded any more.
    assert!(!sink.accept_push_clip());
    assert!(!sink.accept_push_group());
    assert!(!sink.accept_pop_group());
    assert_eq!(sink.finish(), Ok(()));
}

#[test]
fn group_underflow_with_continuing_hook_keeps_forwarding() {
    let mut sink = ValidatingSink::with_hook(TestScene::new(), |_err: &ValidationError| {
        ValidationDecision::Continue
    });
    assert!(!sink.accept_pop_group());
    assert!(!sink.is_aborted());
    assert_eq!(
        sink.first_error(),
        Some(&ValidationError::StackUnderflow { what: "group" })
    );
    assert!(sink.accept_push_group());
    assert!(!sink.accept_pop_clip());
    // The first error is kept.
    assert_eq!(
        sink.first_error(),
        Some(&ValidationError::StackUnderflow { what: "group" })
    );
}

#[test]
fn into_inner_returns_scene_and_error() {
    let mut sink = ValidatingSink::new(TestScene::new());
    let _ = sink.violate(ValidationError::InvalidStroke);
    let (scene, err) = sink.into_inner();
    assert!(scene.commands().is_empty());
    assert_eq!(err, Some(ValidationError::InvalidStroke));
}

#[test]
fn hook_sees_each_reported_error() {
    let mut seen = Vec::new();
    {
        let mut sink = ValidatingSink::with_hook(TestScene::new(), |err: &ValidationError| {
            seen.push(*err);
            ValidationDecision::Continue
        });
        let _ = sink.violate(ValidationError::InvalidFilter);
        let _ = sink.violate(ValidationError::InvalidAlpha);
        assert_eq!(sink.first_error(), Some(&ValidationError::InvalidFilter));
    }
    assert_eq!(
        seen,
        vec![ValidationError::InvalidFilter, ValidationError::InvalidAlpha]
    );
}

#[test]
fn into_inner_with_a_closure_hook_returns_the_untouched_scene() {
    let sink = ValidatingSink::with_hook(TestScene::new(), |_: &ValidationError| {
        ValidationDecision::Continue
    });
    let (scene, err) = sink.into_inner();
    assert_eq!(scene, TestScene::new());
    assert_eq!(err, None);
}

#[test]
fn pop_after_push_is_forwarded() {
    let mut sink = ValidatingSink::new(TestScene::new());
    assert!(sink.accept_push_clip());
    assert!(sink.accept_pop_clip());
    assert_eq!(sink.clip_depth(), 0);
    assert_eq!(sink.first_error(), None);
}

#[test]
fn image_data_must_match_its_format_and_size() {
    assert!(image_data_len_ok(ImageFormat::Rgba8, 2, 3, 24));
    assert!(image_data_len_ok(ImageFormat::Bgra8, 2, 3, 24));
    assert!(!image_data_len_ok(ImageFormat::Rgba8, 2, 3, 23));
    assert!(!image_data_len_ok(ImageFormat::Rgba8, 2, 3, 6));
    assert!(image_data_len_ok(ImageFormat::Rgba8, 0, 7, 0));
    // A size whose byte count overflows never matches.
    assert!(!image_data_len_ok(ImageFormat::Rgba8, u32::MAX, u32::MAX, usize::MAX));
}
