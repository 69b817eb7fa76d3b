use imaging::paint::replay;
use imaging::record::{Command, Scene};

fn payloads(scene: &Scene<u32, u32, u32>) -> Vec<(char, u32)> {
    scene
        .commands()
        .iter()
        .map(|command| match *command {
            Command::PushClip(id) => ('c', *scene.clip(id)),
            Command::PopClip => ('C', 0),
            Command::PushGroup(id) => ('g', *scene.group(id)),
            Command::PopGroup => ('G', 0),
            Command::Draw(id) => ('d', *scene.draw_op(id)),
        })
        .collect()
}

#[test]
fn replay_hands_each_command_to_the_sink_in_order() {
    let mut scene: Scene<u32, u32, u32> = Scene::new();
    let _ = scene.push_clip(10);
    let _ = scene.push_group(20, None);
    let _ = scene.draw(30);
    scene.pop_group();
    let _ = scene.draw(31);
    scene.pop_clip();
    let mut target: Scene<u32, u32, u32> = Scene::new();
    replay(&scene, &mut target);
    assert_eq!(
        payloads(&target),
        vec![('c', 10), ('g', 20), ('d', 30), ('G', 0), ('d', 31), ('C', 0)]
    );
    assert_eq!(target.commands(), scene.commands());
}

#[test]
fn replay_of_an_empty_scene_hands_over_nothing() {
    let scene: Scene<u32, u32, u32> = Scene::new();
    let mut target: Scene<u32, u32, u32> = Scene::new();
    replay(&scene, &mut target);
    assert!(target.commands().is_empty());
    assert_eq!(target.draw_count(), 0);
}

#[test]
fn replay_appends_after_what_the_scene_already_holds() {
    let mut source: Scene<u32, u32, u32> = Scene::new();
    let _ = source.draw(7);
    let mut target: Scene<u32, u32, u32> = Scene::new();
    let _ = target.draw(1);
    replay(&source, &mut target);
    assert_eq!(payloads(&target), vec![('d', 1), ('d', 7)]);
    match target.commands()[1] {
        Command::Draw(id) => assert_eq!(id.index(), 1),
        other => panic!("expected a draw, got {other:?}"),
    }
}
