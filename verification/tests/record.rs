use imaging::paint::{replay, PaintSink};
use imaging::record::{ClipId, Command, DrawId, GroupId, Mask, MaskId, Scene, ValidateError};
use imaging::MaskMode;
use kurbo::{Affine, Rect};
use peniko::Fill;

#[derive(Clone, Debug, PartialEq)]
enum Clip {
    Fill {
        transform: Affine,
        shape: Rect,
        fill_rule: Fill,
    },
}

#[derive(Clone, Debug, Default, PartialEq)]
struct Group {
    clip: Option<Clip>,
}

#[derive(Clone, Debug, PartialEq)]
struct Draw {
    shape: Rect,
}

type TestScene = Scene<Clip, Group, Draw>;

fn unit_clip() -> Clip {
    Clip::Fill {
        transform: Affine::IDENTITY,
        shape: Rect::new(0.0, 0.0, 10.0, 10.0),
        fill_rule: Fill::NonZero,
    }
}

#[test]
fn validate_balanced() {
    let mut s = TestScene::new();
    let _clip = s.push_clip(Clip::Fill {
        transform: Affine::IDENTITY,
        shape: Rect::new(0.0, 0.0, 10.0, 10.0),
        fill_rule: Fill::NonZero,
    });
    let _group = s.push_group(Group::default(), None);
    s.pop_group();
    s.pop_clip();
    assert_eq!(s.validate(), Ok(()));
}

#[test]
fn validate_catches_pop_underflow() {
    let mut s = TestScene::new();
    s.pop_clip();
    assert_eq!(s.validate(), Err(ValidateError::UnbalancedPopClip));
}

#[test]
fn validate_rejects_invalid_nested_mask_scene() {
    let mut invalid_mask = TestScene::new();
    invalid_mask.pop_clip();

    let mut scene = TestScene::new();
    scene.define_mask(Mask::new(MaskMode::Alpha, invalid_mask));

    assert_eq!(
        scene.validate(),
        Err(ValidateError::InvalidMask(Box::new(
            ValidateError::UnbalancedPopClip
        )))
    );
}

#[test]
fn validate_reports_group_underflow() {
    let mut s = TestScene::new();
    s.pop_group();
    assert_eq!(s.validate(), Err(ValidateError::UnbalancedPopGroup));
}

#[test]
fn validate_reports_unclosed_clips_before_groups() {
    let mut s = TestScene::new();
    s.push_group(Group::default(), None);
    s.push_clip(unit_clip());
    assert_eq!(s.validate(), Err(ValidateError::UnclosedClips));
}

#[test]
fn validate_reports_unclosed_groups() {
    let mut s = TestScene::new();
    s.push_group(Group::default(), None);
    assert_eq!(s.validate(), Err(ValidateError::UnclosedGroups));
}

#[test]
fn validate_reports_first_underflow_in_order() {
    let mut s = TestScene::new();
    s.pop_group();
    s.pop_clip();
    assert_eq!(s.validate(), Err(ValidateError::UnbalancedPopGroup));
}

#[test]
fn pop_after_balanced_prefix_is_still_underflow() {
    let mut s = TestScene::new();
    s.push_clip(unit_clip());
    s.pop_clip();
    s.pop_clip();
    s.push_clip(unit_clip());
    assert_eq!(s.validate(), Err(ValidateError::UnbalancedPopClip));
}

#[test]
fn empty_scene_is_valid() {
    let s = TestScene::new();
    assert_eq!(s.validate(), Ok(()));
    assert!(s.commands().is_empty());
}

#[test]
fn recording_assigns_sequential_ids_and_commands() {
    let mut s = TestScene::new();
    let c0 = s.push_clip(unit_clip());
    let g0 = s.push_group(Group::default(), None);
    let d0 = s.draw(Draw {
        shape: Rect::new(0.0, 0.0, 1.0, 1.0),
    });
    let d1 = s.draw(Draw {
        shape: Rect::new(1.0, 1.0, 2.0, 2.0),
    });
    s.pop_group();
    s.pop_clip();
    assert_eq!(c0.index(), 0);
    assert_eq!(g0.index(), 0);
    assert_eq!(d0.index(), 0);
    assert_eq!(d1.index(), 1);
    assert_eq!(
        s.commands(),
        &[
            Command::PushClip(c0),
            Command::PushGroup(g0),
            Command::Draw(d0),
            Command::Draw(d1),
            Command::PopGroup,
            Command::PopClip,
        ]
    );
    assert_eq!(s.clip(c0), &unit_clip());
    assert_eq!(s.group(g0), &Group::default());
    assert_eq!(
        s.draw_op(d1),
        &Draw {
            shape: Rect::new(1.0, 1.0, 2.0, 2.0)
        }
    );
    assert_eq!(s.validate(), Ok(()));
}

#[test]
fn ids_compare_by_index() {
    let mut s = TestScene::new();
    let a = s.push_clip(unit_clip());
    let b = s.push_clip(unit_clip());
    assert_ne!(a, b);
    assert_eq!(ClipId::clone(&a), a);
    let mut t = TestScene::new();
    let g = t.push_group(Group::default(), None);
    let d = t.draw(Draw {
        shape: Rect::new(0.0, 0.0, 1.0, 1.0),
    });
    assert_eq!(GroupId::clone(&g).index(), 0);
    assert_eq!(DrawId::clone(&d).index(), 0);
}

#[test]
fn clear_empties_the_scene() {
    let mut s = TestScene::new();
    s.push_clip(unit_clip());
    s.draw(Draw {
        shape: Rect::new(0.0, 0.0, 1.0, 1.0),
    });
    s.clear();
    assert!(s.commands().is_empty());
    assert_eq!(s, TestScene::new());
    let c = s.push_clip(unit_clip());
    assert_eq!(c.index(), 0);
}

#[test]
fn define_mask_reuses_an_equal_definition() {
    let mut mask_scene = TestScene::new();
    mask_scene.draw(Draw {
        shape: Rect::new(0.0, 0.0, 4.0, 4.0),
    });
    let mut scene = TestScene::new();
    let first: MaskId = scene.define_mask(Mask::new(MaskMode::Alpha, mask_scene.clone()));
    let second = scene.define_mask(Mask::new(MaskMode::Alpha, mask_scene.clone()));
    let third = scene.define_mask(Mask::new(MaskMode::Luminance, mask_scene.clone()));
    assert_eq!(first, second);
    assert_eq!(first.index(), 0);
    assert_eq!(third.index(), 1);
    assert_eq!(scene.mask(third).mode, MaskMode::Luminance);
    assert_eq!(scene.mask(first).scene, mask_scene);
}

#[test]
fn define_mask_distinguishes_scenes() {
    let mut a = TestScene::new();
    a.draw(Draw {
        shape: Rect::new(0.0, 0.0, 4.0, 4.0),
    });
    let mut b = TestScene::new();
    b.draw(Draw {
        shape: Rect::new(0.0, 0.0, 5.0, 5.0),
    });
    let mut scene = TestScene::new();
    let ia = scene.define_mask(Mask::new(MaskMode::Alpha, a));
    let ib = scene.define_mask(Mask::new(MaskMode::Alpha, b));
    assert_ne!(ia, ib);
}

#[test]
fn scenes_compare_by_contents() {
    let mut a = TestScene::new();
    a.push_clip(unit_clip());
    a.pop_clip();
    let b = a.clone();
    assert_eq!(a, b);
    let mut c = a.clone();
    c.draw(Draw {
        shape: Rect::new(0.0, 0.0, 1.0, 1.0),
    });
    assert_ne!(a, c);
    let mut d = TestScene::new();
    d.push_clip(Clip::Fill {
        transform: Affine::translate((1.0, 0.0)),
        shape: Rect::new(0.0, 0.0, 10.0, 10.0),
        fill_rule: Fill::NonZero,
    });
    d.pop_clip();
    assert_ne!(a, d);
}

#[test]
fn reserve_keeps_contents() {
    let mut source = TestScene::new();
    source.draw(Draw {
        shape: Rect::new(0.0, 0.0, 3.0, 4.0),
    });
    let mut dest = TestScene::new();
    dest.push_clip(unit_clip());
    let before = dest.clone();
    dest.reserve_like(&source);
    dest.reserve_additional(4, 3, 2, 1, 0);
    assert_eq!(dest, before);
    assert_eq!(TestScene::default(), TestScene::new());
}

#[test]
fn balanced_streams_compose() {
    // Two balanced streams one after the other, then wrapped in a clip and a group.
    let mut s = TestScene::new();
    s.push_group(Group::default(), None);
    s.pop_group();
    s.push_clip(unit_clip());
    s.draw(Draw {
        shape: Rect::new(0.0, 0.0, 1.0, 1.0),
    });
    s.pop_clip();
    assert_eq!(s.validate(), Ok(()));
    let mut wrapped = TestScene::new();
    wrapped.push_clip(unit_clip());
    wrapped.push_group(Group::default(), None);
    wrapped.push_group(Group::default(), None);
    wrapped.pop_group();
    wrapped.push_clip(unit_clip());
    wrapped.draw(Draw {
        shape: Rect::new(0.0, 0.0, 1.0, 1.0),
    });
    wrapped.pop_clip();
    wrapped.pop_group();
    wrapped.pop_clip();
    assert_eq!(wrapped.validate(), Ok(()));
}

#[test]
fn a_clone_compares_equal() {
    let mut s = TestScene::new();
    s.push_clip(unit_clip());
    s.pop_clip();
    let mut m = TestScene::new();
    m.draw(Draw {
        shape: Rect::new(0.0, 0.0, 2.0, 2.0),
    });
    s.define_mask(Mask::new(MaskMode::Luminance, m));
    let copy = s.clone();
    assert_eq!(copy, s);
    assert_eq!(s, s);
    assert_eq!(copy.mask_count(), 1);
    assert_eq!(copy.clip_count(), 1);
    assert_eq!(copy.group_count(), 0);
    assert_eq!(copy.draw_count(), 0);
}

#[test]
fn replay_round_trip() {
    let mut a = TestScene::new();
    let _ = a.push_clip(unit_clip());
    let _ = a.push_group(Group::default(), None);
    a.draw(Draw {
        shape: Rect::new(0.0, 0.0, 1.0, 1.0),
    });
    a.draw(Draw {
        shape: Rect::new(0.0, 0.0, 12.0, 12.0),
    });
    a.draw(Draw {
        shape: Rect::new(0.0, 0.0, 4.0, 3.0),
    });
    a.pop_group();
    a.pop_clip();
    assert_eq!(a.validate(), Ok(()));

    let mut b = TestScene::new();
    replay(&a, &mut b);
    assert_eq!(a, b);
}

fn group_ids(scene: &TestScene) -> Vec<GroupId> {
    scene
        .commands()
        .iter()
        .filter_map(|command| match *command {
            Command::PushGroup(id) => Some(id),
            _ => None,
        })
        .collect()
}

#[test]
fn recording_groups_with_same_mask_ref_shares_one_mask_definition() {
    let mut mask_scene = TestScene::new();
    mask_scene.draw(Draw {
        shape: Rect::new(0.0, 0.0, 4.0, 4.0),
    });

    let mut scene = TestScene::new();
    let mask = Mask::new(MaskMode::Alpha, mask_scene.clone());

    PaintSink::push_group(&mut scene, Group::default(), Some(mask.clone()));
    scene.pop_group();
    PaintSink::push_group(&mut scene, Group::default(), Some(mask));
    scene.pop_group();

    assert_eq!(scene.mask_count(), 1);
    let ids = group_ids(&scene);
    let first = scene.group_mask(ids[0]).expect("expected mask");
    let second = scene.group_mask(ids[1]).expect("expected mask");
    assert_eq!(first, second);
}

#[test]
fn replay_round_trip_with_masked_groups() {
    let mut alpha = TestScene::new();
    alpha.draw(Draw {
        shape: Rect::new(0.0, 0.0, 4.0, 4.0),
    });
    let mut luma = TestScene::new();
    luma.draw(Draw {
        shape: Rect::new(1.0, 1.0, 2.0, 2.0),
    });

    let mut a = TestScene::new();
    let m0 = a.define_mask(Mask::new(MaskMode::Alpha, alpha));
    let m1 = a.define_mask(Mask::new(MaskMode::Luminance, luma));
    let _ = a.push_group(Group::default(), Some(m0));
    a.draw(Draw {
        shape: Rect::new(0.0, 0.0, 8.0, 8.0),
    });
    a.pop_group();
    let _ = a.push_group(Group::default(), None);
    let _ = a.push_group(Group::default(), Some(m1));
    a.pop_group();
    a.pop_group();
    let _ = a.push_group(Group::default(), Some(m0));
    a.pop_group();
    assert_eq!(a.validate(), Ok(()));

    let mut b = TestScene::new();
    replay(&a, &mut b);
    assert_eq!(b.mask_count(), 2);
    let ids = group_ids(&b);
    assert_eq!(b.group_mask(ids[0]), Some(m0));
    assert_eq!(b.group_mask(ids[1]), None);
    assert_eq!(b.group_mask(ids[2]), Some(m1));
    assert_eq!(b.group_mask(ids[3]), Some(m0));
    assert_eq!(a, b);
}

#[test]
fn replay_renumbers_masks_by_first_use() {
    let mut first = TestScene::new();
    first.draw(Draw {
        shape: Rect::new(0.0, 0.0, 1.0, 1.0),
    });
    let mut second = TestScene::new();
    second.draw(Draw {
        shape: Rect::new(0.0, 0.0, 2.0, 2.0),
    });
    let mut a = TestScene::new();
    let m0 = a.define_mask(Mask::new(MaskMode::Alpha, first));
    let m1 = a.define_mask(Mask::new(MaskMode::Alpha, second));
    let _ = a.push_group(Group::default(), Some(m1));
    a.pop_group();
    let _ = a.push_group(Group::default(), Some(m0));
    a.pop_group();

    let mut b = TestScene::new();
    replay(&a, &mut b);
    // Definitions are brought in as groups first use them, so the order differs here.
    let ids = group_ids(&b);
    assert_eq!(b.group_mask(ids[0]).map(|id| id.index()), Some(0));
    assert_eq!(b.group_mask(ids[1]).map(|id| id.index()), Some(1));
    assert_eq!(b.mask(b.group_mask(ids[0]).unwrap()), a.mask(m1));
    assert_ne!(a, b);
}
