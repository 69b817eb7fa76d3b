use imaging::painter::Painter;
use imaging::record::{Command, Mask, Scene};
use imaging::MaskMode;

type TestScene = Scene<u32, u32, u32>;

fn kinds(scene: &TestScene) -> Vec<char> {
    scene
        .commands()
        .iter()
        .map(|command| match command {
            Command::PushClip(_) => 'c',
            Command::PopClip => 'C',
            Command::PushGroup(_) => 'g',
            Command::PopGroup => 'G',
            Command::Draw(_) => 'd',
        })
        .collect()
}

#[test]
fn replay_forwards_recorded_scene_into_wrapped_sink() {
    let mut source = TestScene::new();
    source.draw(23);

    let mut painter = Painter::new(TestScene::new());
    painter.replay(&source);

    assert_eq!(source, painter.into_inner());
}

#[test]
fn sink_mut_exposes_wrapped_sink() {
    let mut painter = Painter::new(TestScene::new());
    painter.sink_mut().draw(4);
    assert_eq!(painter.into_inner().commands().len(), 1);
}

#[test]
fn with_fill_clip_still_pushes_and_pops() {
    let mut painter = Painter::new(TestScene::new());
    painter.with_clip(56, |_| {});
    let scene = painter.into_inner();
    assert_eq!(scene.clip_count(), 1);
    assert_eq!(kinds(&scene), vec!['c', 'C']);
}

#[test]
fn with_clip_brackets_the_closure_calls() {
    let mut painter = Painter::new(TestScene::new());
    painter.sink_mut().draw(1);
    painter.with_clip(10, |inner| {
        inner.sink_mut().draw(2);
        inner.with_group(20, None, |nested| {
            nested.sink_mut().draw(3);
        });
    });
    let scene = painter.into_inner();
    assert_eq!(kinds(&scene), vec!['d', 'c', 'd', 'g', 'd', 'G', 'C']);
    assert_eq!(scene.validate(), Ok(()));
}

#[test]
fn push_and_pop_without_closures_pair_up() {
    let mut painter = Painter::new(TestScene::new());
    painter.push_clip(1);
    painter.push_group(2, None);
    painter.pop_group();
    painter.pop_clip();
    assert_eq!(kinds(&painter.into_inner()), vec!['c', 'g', 'G', 'C']);
}

#[test]
fn with_masked_group_records_reusable_mask_and_group_content() {
    let mut painter = Painter::new(TestScene::new());

    painter.with_masked_group(
        0,
        MaskMode::Alpha,
        |mask| {
            mask.sink_mut().draw(88);
        },
        |content| {
            content.sink_mut().draw(66);
        },
    );

    let scene = painter.into_inner();
    assert_eq!(kinds(&scene), vec!['g', 'd', 'G']);
    let group = match scene.commands()[0] {
        Command::PushGroup(id) => id,
        other => panic!("expected a group push, got {other:?}"),
    };
    let mask = scene.group_mask(group).expect("expected group mask");
    assert_eq!(mask.index(), 0);
    assert_eq!(scene.mask(mask).scene.commands().len(), 1);
    assert_eq!(scene.mask(mask).mode, MaskMode::Alpha);
}

#[test]
fn record_mask_returns_reusable_mask_definition() {
    let mask: Mask<u32, u32, u32> = Painter::<TestScene>::record_mask(MaskMode::Luminance, |mask| {
        mask.sink_mut().draw(88);
    });

    assert_eq!(mask.scene.commands().len(), 1);
    assert_eq!(mask.mode, MaskMode::Luminance);
}

#[test]
fn a_recorded_mask_is_shared_by_groups_that_reuse_it() {
    let mask: Mask<u32, u32, u32> = Painter::<TestScene>::record_mask(MaskMode::Alpha, |mask| {
        mask.sink_mut().draw(9);
    });
    let mut painter = Painter::new(TestScene::new());
    painter.with_group(1, Some(mask.clone()), |_| {});
    painter.with_group(2, Some(mask), |_| {});
    let scene = painter.into_inner();
    assert_eq!(scene.mask_count(), 1);
}
