//! Streaming recorded scenes into paint sinks.
//!
//! A [`PaintSink`] takes the calls of a command stream one at a time; [`replay`] feeds it the
//! commands of a recorded [`Scene`] in order, and a [`Scene`] is itself a sink that records what
//! it is fed.

use vstd::prelude::*;

use vstd::std_specs::cmp::PartialEqSpec;

use crate::record::{
    clones_exactly, law_clone_equals_source, lemma_command_determined, lemma_mask_id_determined,
    masks_match, payloads_obey_eq, same_kind, Command, Mask, MaskId, Scene,
};

verus! {

/// Numbers of clip pushes, group pushes and draws in `cmds`.
pub open spec fn pushes(cmds: Seq<Command>) -> (nat, nat, nat)
    decreases cmds.len(),
{
    if cmds.len() == 0 {
        (0, 0, 0)
    } else {
        pushes_after(pushes(cmds.drop_last()), cmds.last())
    }
}

/// The counts of [`pushes`] after one more command `c`.
pub open spec fn pushes_after(n: (nat, nat, nat), c: Command) -> (nat, nat, nat) {
    match c {
        Command::PushClip(_) => (n.0 + 1, n.1, n.2),
        Command::PushGroup(_) => (n.0, n.1 + 1, n.2),
        Command::Draw(_) => (n.0, n.1, n.2 + 1),
        _ => n,
    }
}

/// Whether command `c` refers to the next free slot of its table, `n` slots of each being taken.
pub open spec fn refers_to_next(c: Command, n: (nat, nat, nat)) -> bool {
    match c {
        Command::PushClip(id) => id@ == n.0,
        Command::PushGroup(id) => id@ == n.1,
        Command::Draw(id) => id@ == n.2,
        _ => true,
    }
}

/// Every command of `cmds` that adds a payload refers to the payload added with it: the `k`-th
/// clip push to clip `k`, and so on for groups and draws.
pub open spec fn in_push_order(cmds: Seq<Command>) -> bool {
    forall|k: int| 0 <= k < cmds.len() ==> #[trigger] refers_to_next(cmds[k], pushes(cmds.take(k)))
}

/// The shape of every scene built by its own recording calls: commands in push order, each
/// payload table holding exactly the payloads that the commands added, and every group's mask
/// defined in the mask table.
pub open spec fn recorded_in_order<C, G, D>(scene: Scene<C, G, D>) -> bool {
    &&& in_push_order(scene.commands_view())
    &&& pushes(scene.commands_view()) == (
        scene.clips_view().len(),
        scene.groups_view().len(),
        scene.draws_view().len(),
    )
    &&& scene.group_masks_view().len() == scene.groups_view().len()
    &&& forall|g: int|
        0 <= g < scene.group_masks_view().len() ==> (#[trigger] scene.group_masks_view()[g] matches Some(
            m,
        ) ==> m@ < scene.masks_view().len())
}

/// Number of mask definitions that the groups with masks `uses` bring in, each group using a
/// definition brought in earlier or the next one.
pub open spec fn masks_introduced(uses: Seq<Option<MaskId>>) -> nat
    decreases uses.len(),
{
    if uses.len() == 0 {
        0
    } else {
        let n = masks_introduced(uses.drop_last());
        match uses.last() {
            Some(m) => if m@ == n {
                n + 1
            } else {
                n
            },
            None => n,
        }
    }
}

/// The groups' masks `uses` are first used in definition order and use all `count` definitions:
/// each group uses a definition that an earlier group used, or the next one.
#[verifier::opaque]
pub open spec fn masks_used_in_order(uses: Seq<Option<MaskId>>, count: nat) -> bool {
    &&& forall|g: int|
        0 <= g < uses.len() ==> (#[trigger] uses[g] matches Some(m) ==> m@ <= masks_introduced(
            uses.take(g),
        ))
    &&& masks_introduced(uses) == count
}

/// No two of the mask definitions `masks` are equal.
#[verifier::opaque]
pub open spec fn masks_distinct<C: PartialEq, G: PartialEq, D: PartialEq>(
    masks: Seq<Mask<C, G, D>>,
) -> bool {
    forall|i: int, j: int|
        0 <= i < j < masks.len() ==> !masks_match(#[trigger] masks[i], #[trigger] masks[j])
}

/// Using one more mask keeps the uses in definition order when it is one used before or the next.
proof fn lemma_mask_use_step(uses: Seq<Option<MaskId>>, count: nat, used: Option<MaskId>)
    requires
        masks_used_in_order(uses, count),
        used matches Some(m) ==> m@ <= count,
    ensures
        masks_used_in_order(
            uses.push(used),
            if used matches Some(m) && m@ == count {
                count + 1
            } else {
                count
            },
        ),
{
    reveal(masks_used_in_order);
    let all = uses.push(used);
    assert(all.drop_last() =~= uses);
    assert forall|g: int| 0 <= g < all.len() implies (#[trigger] all[g] matches Some(m) ==> m@
        <= masks_introduced(all.take(g))) by {
        if g < uses.len() {
            assert(all.take(g) =~= uses.take(g));
            assert(uses[g] == all[g]);
        } else {
            assert(all.take(g) =~= uses);
        }
    }
}

/// Appending a command that refers to the next free slot keeps `cmds` in push order.
pub proof fn lemma_push_order_step(cmds: Seq<Command>, c: Command)
    requires
        in_push_order(cmds),
        refers_to_next(c, pushes(cmds)),
    ensures
        in_push_order(cmds.push(c)),
        pushes(cmds.push(c)) == pushes_after(pushes(cmds), c),
{
    let all = cmds.push(c);
    assert(all.drop_last() =~= cmds);
    assert forall|k: int| 0 <= k < all.len() implies #[trigger] refers_to_next(
        all[k],
        pushes(all.take(k)),
    ) by {
        if k < cmds.len() {
            assert(all.take(k) =~= cmds.take(k));
            assert(refers_to_next(cmds[k], pushes(cmds.take(k))));
        } else {
            assert(all.take(k) =~= cmds);
        }
    }
}

/// Counting a longer prefix never gives fewer pushes, and one more command adds at most its own.
pub proof fn lemma_pushes_prefix(cmds: Seq<Command>, i: int, j: int)
    requires
        0 <= i <= j <= cmds.len(),
    ensures
        pushes(cmds.take(i)).0 <= pushes(cmds.take(j)).0,
        pushes(cmds.take(i)).1 <= pushes(cmds.take(j)).1,
        pushes(cmds.take(i)).2 <= pushes(cmds.take(j)).2,
    decreases j - i,
{
    if i < j {
        lemma_pushes_prefix(cmds, i, j - 1);
        assert(cmds.take(j).drop_last() =~= cmds.take(j - 1));
    }
}

/// The counts of a prefix one command longer.
pub proof fn lemma_pushes_next(cmds: Seq<Command>, i: int)
    requires
        0 <= i < cmds.len(),
    ensures
        pushes(cmds.take(i + 1)) == pushes_after(pushes(cmds.take(i)), cmds[i]),
{
    assert(cmds.take(i + 1).drop_last() =~= cmds.take(i));
}

/// A command of a scene recorded in order refers to a payload that its table holds.
pub proof fn lemma_ids_in_range<C, G, D>(scene: Scene<C, G, D>, k: int)
    requires
        recorded_in_order(scene),
        0 <= k < scene.commands_view().len(),
    ensures
        match scene.commands_view()[k] {
            Command::PushClip(id) => id@ < scene.clips_view().len(),
            Command::PushGroup(id) => id@ < scene.groups_view().len(),
            Command::Draw(id) => id@ < scene.draws_view().len(),
            _ => true,
        },
{
    let cmds = scene.commands_view();
    assert(refers_to_next(cmds[k], pushes(cmds.take(k))));
    lemma_pushes_next(cmds, k);
    lemma_pushes_prefix(cmds, k + 1, cmds.len() as int);
    assert(cmds.take(cmds.len() as int) =~= cmds);
}

/// One call taken by a [`PaintSink`], with the payload handed over.
#[derive(Debug)]
pub enum PaintEvent<C, G, D> {
    /// A clip was pushed.
    PushClip(C),
    /// The innermost clip was popped.
    PopClip,
    /// A group was pushed, with the mask definition it applies.
    PushGroup(G, Option<Mask<C, G, D>>),
    /// The innermost group was popped.
    PopGroup,
    /// A draw was emitted.
    Draw(D),
}

/// The mask definition that `scene` holds under `id`, if any.
pub open spec fn stored_mask<C, G, D>(scene: Scene<C, G, D>, id: Option<MaskId>) -> Option<
    Mask<C, G, D>,
> {
    match id {
        Some(m) => Some(scene.masks_view()[m@ as int]),
        None => None,
    }
}

/// Whether a sink that was handed the mask definition `handed` keeps `stored` for it: no mask
/// for none, and for a definition, when payload equality means what it says, that definition or
/// an equal one.
pub open spec fn stands_for<C: PartialEq, G: PartialEq, D: PartialEq>(
    stored: Option<Mask<C, G, D>>,
    handed: Option<Mask<C, G, D>>,
) -> bool {
    match (stored, handed) {
        (None, None) => true,
        (Some(a), Some(b)) => payloads_obey_eq::<C, G, D>() ==> (a == b || masks_match(a, b)),
        _ => false,
    }
}

/// The call that command `c` of `scene` stands for, with the payload it refers to.
pub open spec fn event_of<C, G, D>(scene: Scene<C, G, D>, c: Command) -> PaintEvent<C, G, D> {
    match c {
        Command::PushClip(id) => PaintEvent::PushClip(scene.clips_view()[id@ as int]),
        Command::PopClip => PaintEvent::PopClip,
        Command::PushGroup(id) => PaintEvent::PushGroup(
            scene.groups_view()[id@ as int],
            stored_mask(scene, scene.group_masks_view()[id@ as int]),
        ),
        Command::PopGroup => PaintEvent::PopGroup,
        Command::Draw(id) => PaintEvent::Draw(scene.draws_view()[id@ as int]),
    }
}

/// The calls that `scene` has recorded, oldest first.
pub open spec fn scene_events<C, G, D>(scene: Scene<C, G, D>) -> Seq<PaintEvent<C, G, D>> {
    scene.commands_view().map_values(|c: Command| event_of(scene, c))
}

/// A consumer of a paint command stream.
///
/// `received` is the sequence of calls the sink has taken; `has_room(c, g, d)` says that it can
/// take `c` more clip pushes, `g` more group pushes and `d` more draws.
pub trait PaintSink<C: PartialEq, G: PartialEq, D: PartialEq> {
    /// The calls taken so far, oldest first.
    spec fn received(&self) -> Seq<PaintEvent<C, G, D>>;

    /// Whether the sink can take `clips` more clip pushes, `groups` more group pushes and
    /// `draws` more draws.
    spec fn has_room(&self, clips: int, groups: int, draws: int) -> bool;

    /// Push a non-isolated clip.
    fn push_clip(&mut self, clip: C)
        requires
            exists|c: int, g: int, d: int|
                c >= 1 && g >= 0 && d >= 0 && #[trigger] old(self).has_room(c, g, d),
        ensures
            final(self).received() == old(self).received().push(PaintEvent::PushClip(clip)),
            forall|c: int, g: int, d: int| #[trigger]
                old(self).has_room(c, g, d) ==> final(self).has_room(c - 1, g, d),
    ;

    /// Pop the most recently pushed non-isolated clip.
    fn pop_clip(&mut self)
        requires
            exists|c: int, g: int, d: int|
                c >= 0 && g >= 0 && d >= 0 && #[trigger] old(self).has_room(c, g, d),
        ensures
            final(self).received() == old(self).received().push(PaintEvent::PopClip),
            forall|c: int, g: int, d: int| #[trigger]
                old(self).has_room(c, g, d) ==> final(self).has_room(c, g, d),
    ;

    /// Push an isolated group that applies the mask definition `mask`.
    fn push_group(&mut self, group: G, mask: Option<Mask<C, G, D>>)
        requires
            exists|c: int, g: int, d: int|
                c >= 0 && g >= 1 && d >= 0 && #[trigger] old(self).has_room(c, g, d),
        ensures
            final(self).received().len() == old(self).received().len() + 1,
            final(self).received().drop_last() == old(self).received(),
            final(self).received().last() matches PaintEvent::PushGroup(g, stored) && g == group
                && stands_for(stored, mask),
            forall|c: int, g: int, d: int| #[trigger]
                old(self).has_room(c, g, d) ==> final(self).has_room(c, g - 1, d),
    ;

    /// Pop the most recently pushed isolated group.
    fn pop_group(&mut self)
        requires
            exists|c: int, g: int, d: int|
                c >= 0 && g >= 0 && d >= 0 && #[trigger] old(self).has_room(c, g, d),
        ensures
            final(self).received() == old(self).received().push(PaintEvent::PopGroup),
            forall|c: int, g: int, d: int| #[trigger]
                old(self).has_room(c, g, d) ==> final(self).has_room(c, g, d),
    ;

    /// Emit a draw.
    fn draw(&mut self, draw: D)
        requires
            exists|c: int, g: int, d: int|
                c >= 0 && g >= 0 && d >= 1 && #[trigger] old(self).has_room(c, g, d),
        ensures
            final(self).received() == old(self).received().push(PaintEvent::Draw(draw)),
            forall|c: int, g: int, d: int| #[trigger]
                old(self).has_room(c, g, d) ==> final(self).has_room(c, g, d - 1),
    ;
}

/// Recording one more command `c`, with the payload tables only growing, records one more event
/// and leaves the earlier ones as they were.
proof fn lemma_events_extend<C, G, D>(before: Scene<C, G, D>, after: Scene<C, G, D>, c: Command)
    requires
        recorded_in_order(before),
        after.commands_view() == before.commands_view().push(c),
        before.clips_view().len() <= after.clips_view().len(),
        before.groups_view().len() <= after.groups_view().len(),
        before.draws_view().len() <= after.draws_view().len(),
        forall|i: int| 0 <= i < before.clips_view().len() ==> after.clips_view()[i] == before.clips_view()[i],
        forall|i: int| 0 <= i < before.groups_view().len() ==> after.groups_view()[i] == before.groups_view()[i],
        forall|i: int| 0 <= i < before.draws_view().len() ==> after.draws_view()[i] == before.draws_view()[i],
        before.masks_view().len() <= after.masks_view().len(),
        forall|i: int| 0 <= i < before.masks_view().len() ==> after.masks_view()[i] == before.masks_view()[i],
        before.group_masks_view().len() <= after.group_masks_view().len(),
        forall|i: int|
            0 <= i < before.group_masks_view().len() ==> after.group_masks_view()[i]
                == before.group_masks_view()[i],
    ensures
        scene_events(after) == scene_events(before).push(event_of(after, c)),
{
    let n = before.commands_view().len() as int;
    assert forall|k: int| 0 <= k < n implies #[trigger] event_of(after, before.commands_view()[k])
        == event_of(before, before.commands_view()[k]) by {
        lemma_ids_in_range(before, k);
        if let Command::PushGroup(id) = before.commands_view()[k] {
            assert(before.group_masks_view()[id@ as int] == after.group_masks_view()[id@ as int]);
        }
    }
    assert(scene_events(after) =~= scene_events(before).push(event_of(after, c)));
}

impl<C: PartialEq, G: PartialEq, D: PartialEq> PaintSink<C, G, D> for Scene<C, G, D> {
    /// A scene has taken the calls it recorded.
    open spec fn received(&self) -> Seq<PaintEvent<C, G, D>> {
        scene_events(*self)
    }

    /// A scene takes calls while it is recorded in order, its groups use all its mask definitions
    /// in definition order, the definitions are distinct (when payload equality means what it
    /// says), and its payload tables fit `u32` identifiers (each group may add one definition).
    open spec fn has_room(&self, clips: int, groups: int, draws: int) -> bool {
        &&& recorded_in_order(*self)
        &&& masks_used_in_order(self.group_masks_view(), self.masks_view().len())
        &&& payloads_obey_eq::<C, G, D>() ==> masks_distinct(self.masks_view())
        &&& self.clips_view().len() + clips <= u32::MAX + 1
        &&& self.groups_view().len() + groups <= u32::MAX + 1
        &&& self.masks_view().len() + groups <= u32::MAX + 1
        &&& self.draws_view().len() + draws <= u32::MAX + 1
    }

    fn push_clip(&mut self, clip: C) {
        let ghost before = *self;
        let id = Scene::push_clip(self, clip);
        proof {
            lemma_push_order_step(before.commands_view(), Command::PushClip(id));
            lemma_events_extend(before, *self, Command::PushClip(id));
        }
    }

    fn pop_clip(&mut self) {
        let ghost before = *self;
        Scene::pop_clip(self);
        proof {
            lemma_push_order_step(before.commands_view(), Command::PopClip);
            lemma_events_extend(before, *self, Command::PopClip);
        }
    }

    fn push_group(&mut self, group: G, mask: Option<Mask<C, G, D>>) {
        let ghost before = *self;
        let mask_id = match mask {
            Some(m) => Some(self.define_mask(m)),
            None => None,
        };
        let ghost defined = *self;
        let id = Scene::push_group(self, group, mask_id);
        proof {
            lemma_push_order_step(before.commands_view(), Command::PushGroup(id));
            lemma_events_extend(before, *self, Command::PushGroup(id));
            if masks_used_in_order(before.group_masks_view(), before.masks_view().len()) {
                lemma_mask_use_step(before.group_masks_view(), before.masks_view().len(), mask_id);
                assert(masks_used_in_order(self.group_masks_view(), self.masks_view().len()));
            }
            if payloads_obey_eq::<C, G, D>() && masks_distinct(before.masks_view()) {
                reveal(masks_distinct);
                assert(masks_distinct(self.masks_view()));
            }
        }
    }

    fn pop_group(&mut self) {
        let ghost before = *self;
        Scene::pop_group(self);
        proof {
            lemma_push_order_step(before.commands_view(), Command::PopGroup);
            lemma_events_extend(before, *self, Command::PopGroup);
        }
    }

    fn draw(&mut self, draw: D) {
        let ghost before = *self;
        let id = Scene::draw(self, draw);
        proof {
            lemma_push_order_step(before.commands_view(), Command::Draw(id));
            lemma_events_extend(before, *self, Command::Draw(id));
        }
    }
}

/// `copy` is a clone of the mask definition `src`: the same mode and a clone of its scene.
pub open spec fn is_mask_clone<C: Clone, G: Clone, D: Clone>(
    copy: Mask<C, G, D>,
    src: Mask<C, G, D>,
) -> bool {
    copy.mode == src.mode && copy.scene.clone_of(src.scene)
}

/// Whether a sink kept `stored` for the mask that `scene` holds under `used`, having been handed
/// a clone of it: nothing when the group has no mask.
pub open spec fn mask_replayed<C: Clone + PartialEq, G: Clone + PartialEq, D: Clone + PartialEq>(
    scene: Scene<C, G, D>,
    used: Option<MaskId>,
    stored: Option<Mask<C, G, D>>,
) -> bool {
    match used {
        None => stored is None,
        Some(m) => exists|handed: Mask<C, G, D>|
            #[trigger] is_mask_clone(handed, scene.masks_view()[m@ as int]) && stands_for(
                stored,
                Some(handed),
            ),
    }
}

/// Whether event `ev` replays command `c` of `scene`: the same call, with a clone of the payload
/// (and of the group's mask definition) that the command refers to.
pub open spec fn replays<C: Clone + PartialEq, G: Clone + PartialEq, D: Clone + PartialEq>(
    scene: Scene<C, G, D>,
    c: Command,
    ev: PaintEvent<C, G, D>,
) -> bool {
    match c {
        Command::PushClip(id) => ev matches PaintEvent::PushClip(clip) && cloned::<C>(
            scene.clips_view()[id@ as int],
            clip,
        ),
        Command::PopClip => ev is PopClip,
        Command::PushGroup(id) => ev matches PaintEvent::PushGroup(group, stored) && cloned::<G>(
            scene.groups_view()[id@ as int],
            group,
        ) && mask_replayed(scene, scene.group_masks_view()[id@ as int], stored),
        Command::PopGroup => ev is PopGroup,
        Command::Draw(id) => ev matches PaintEvent::Draw(draw) && cloned::<D>(
            scene.draws_view()[id@ as int],
            draw,
        ),
    }
}

/// Whether `events`, from position `start` on, replay the commands of `scene` one by one.
pub open spec fn replays_from<C: Clone + PartialEq, G: Clone + PartialEq, D: Clone + PartialEq>(
    scene: Scene<C, G, D>,
    events: Seq<PaintEvent<C, G, D>>,
    start: int,
) -> bool {
    forall|k: int|
        0 <= k < scene.commands_view().len() ==> #[trigger] replays(
            scene,
            scene.commands_view()[k],
            events[start + k],
        )
}

/// Replay the commands of `scene` into `sink`, in order, handing it a clone of each payload and
/// of each group's mask definition.
pub fn replay<C: Clone + PartialEq, G: Clone + PartialEq, D: Clone + PartialEq, S: PaintSink<C, G, D>>(
    scene: &Scene<C, G, D>,
    sink: &mut S,
)
    requires
        recorded_in_order(*scene),
        old(sink).has_room(
            scene.clips_view().len() as int,
            scene.groups_view().len() as int,
            scene.draws_view().len() as int,
        ),
    ensures
        final(sink).received().len() == old(sink).received().len() + scene.commands_view().len(),
        final(sink).received().take(old(sink).received().len() as int) == old(sink).received(),
        final(sink).has_room(0, 0, 0),
        replays_from(*scene, final(sink).received(), old(sink).received().len() as int),
{
    let cmds = scene.commands();
    let n = cmds.len();
    let ghost start = sink.received();
    let ghost m = start.len() as int;
    let ghost nc = scene.clips_view().len() as int;
    let ghost ng = scene.groups_view().len() as int;
    let ghost nd = scene.draws_view().len() as int;
    proof {
        assert(cmds@.take(0) =~= Seq::<Command>::empty());
        assert(sink.received().take(m) =~= start);
    }
    let mut i: usize = 0;
    while i < n
        invariant
            n == cmds@.len(),
            cmds@ == scene.commands_view(),
            recorded_in_order(*scene),
            nc == scene.clips_view().len(),
            ng == scene.groups_view().len(),
            nd == scene.draws_view().len(),
            i <= n,
            m == start.len(),
            sink.received().len() == m + i,
            sink.received().take(m) == start,
            forall|k: int|
                0 <= k < i ==> #[trigger] replays(*scene, cmds@[k], sink.received()[m + k]),
            sink.has_room(
                nc - pushes(cmds@.take(i as int)).0,
                ng - pushes(cmds@.take(i as int)).1,
                nd - pushes(cmds@.take(i as int)).2,
            ),
        decreases n - i,
    {
        let ghost before = sink.received();
        let ghost p = pushes(cmds@.take(i as int));
        proof {
            lemma_pushes_next(cmds@, i as int);
            lemma_pushes_prefix(cmds@, i as int + 1, n as int);
            assert(cmds@.take(n as int) =~= cmds@);
            lemma_ids_in_range(*scene, i as int);
            assert(sink.has_room(nc - p.0, ng - p.1, nd - p.2));
        }
        match cmds[i] {
            Command::PushClip(id) => {
                let clip = scene.clip(id).clone();
                sink.push_clip(clip);
            },
            Command::PopClip => {
                sink.pop_clip();
            },
            Command::PushGroup(id) => {
                let group = scene.group(id).clone();
                let mask = match scene.group_mask(id) {
                    Some(mid) => {
                        let copy = scene.mask(mid).clone();
                        proof {
                            assert(is_mask_clone(copy, scene.masks_view()[mid@ as int]));
                        }
                        Some(copy)
                    },
                    None => None,
                };
                sink.push_group(group, mask);
            },
            Command::PopGroup => {
                sink.pop_group();
            },
            Command::Draw(id) => {
                let draw = scene.draw_op(id).clone();
                sink.draw(draw);
            },
        }
        proof {
            assert(sink.received().drop_last() == before);
            assert(sink.received().take(m) =~= before.take(m));
            assert(replays(*scene, cmds@[i as int], sink.received()[m + i]));
            assert forall|k: int| 0 <= k < i + 1 implies #[trigger] replays(
                *scene,
                cmds@[k],
                sink.received()[m + k],
            ) by {
                if k < i {
                    assert(sink.received()[m + k] == before[m + k]);
                }
            }
        }
        i = i + 1;
    }
    proof {
        assert(cmds@.take(n as int) =~= cmds@);
    }
}

/// Command streams of the same kinds, position by position, count the same pushes.
proof fn lemma_same_kinds_same_pushes(a: Seq<Command>, b: Seq<Command>, k: int)
    requires
        a.len() == b.len(),
        0 <= k <= a.len(),
        forall|j: int| 0 <= j < a.len() ==> #[trigger] same_kind(a[j], b[j]),
    ensures
        pushes(a.take(k)) == pushes(b.take(k)),
    decreases k,
{
    if k > 0 {
        lemma_same_kinds_same_pushes(a, b, k - 1);
        lemma_pushes_next(a, k - 1);
        lemma_pushes_next(b, k - 1);
        assert(same_kind(a[k - 1], b[k - 1]));
    }
}

/// The group at position `g`, pushed by some command of `source` that `target` replays, uses in
/// `target` a definition equal to the one it uses in `source`.
proof fn lemma_group_mask_replayed<C: Clone + PartialEq, G: Clone + PartialEq, D: Clone + PartialEq>(
    source: Scene<C, G, D>,
    target: Scene<C, G, D>,
    k: int,
    g: nat,
)
    requires
        vstd::laws_eq::obeys_concrete_eq::<C>(),
        vstd::laws_eq::obeys_concrete_eq::<G>(),
        vstd::laws_eq::obeys_concrete_eq::<D>(),
        clones_exactly::<C>(),
        clones_exactly::<G>(),
        clones_exactly::<D>(),
        recorded_in_order(source),
        recorded_in_order(target),
        0 <= k < source.commands_view().len(),
        target.commands_view() == source.commands_view(),
        pushes_group(source.commands_view()[k], g),
        replays(source, source.commands_view()[k], event_of(target, source.commands_view()[k])),
    ensures
        mask_use_matches(
            source.masks_view(),
            target.masks_view(),
            source.group_masks_view()[g as int],
            target.group_masks_view()[g as int],
        ),
{
    reveal(vstd::laws_eq::obeys_concrete_eq);
    lemma_ids_in_range(source, k);
    let sm = source.group_masks_view()[g as int];
    let tm = target.group_masks_view()[g as int];
    assert(mask_replayed(source, sm, stored_mask(target, tm)));
    if let Some(m) = sm {
        let handed = choose|handed: Mask<C, G, D>|
            #[trigger] is_mask_clone(handed, source.masks_view()[m@ as int]) && stands_for(
                stored_mask(target, tm),
                Some(handed),
            );
        let src = source.masks_view()[m@ as int];
        law_clone_equals_source(src.scene, handed.scene);
        assert(masks_match(handed, src));
        if let Some(t) = tm {
            let kept = target.masks_view()[t@ as int];
            if kept != handed {
                lemma_masks_match_laws(kept, handed, src);
            }
        }
    }
}

/// Law: replay is a round trip through recording. A scene whose calls replay those of `source`
/// (as [`replay`] into an empty scene leaves it) holds the same command stream and payload tables
/// of the same sizes, each payload a clone of the one it replays. When payloads compare and clone
/// as plain values, and the source's mask definitions are distinct and first used by its groups
/// in definition order, it also holds equal definitions in the same order, each group uses the
/// same definition, and the whole scene equals the source.
pub proof fn law_replay_round_trip<C: Clone + PartialEq, G: Clone + PartialEq, D: Clone + PartialEq>(
    source: Scene<C, G, D>,
    target: Scene<C, G, D>,
)
    requires
        recorded_in_order(source),
        target.has_room(0, 0, 0),
        target.received().len() == source.commands_view().len(),
        replays_from(source, target.received(), 0),
    ensures
        target.commands_view() == source.commands_view(),
        target.clips_view().len() == source.clips_view().len(),
        target.groups_view().len() == source.groups_view().len(),
        target.draws_view().len() == source.draws_view().len(),
        forall|k: int|
            0 <= k < source.commands_view().len() ==> #[trigger] replays(
                source,
                source.commands_view()[k],
                event_of(target, source.commands_view()[k]),
            ),
        ({
            &&& vstd::laws_eq::obeys_concrete_eq::<C>()
            &&& vstd::laws_eq::obeys_concrete_eq::<G>()
            &&& vstd::laws_eq::obeys_concrete_eq::<D>()
            &&& clones_exactly::<C>()
            &&& clones_exactly::<G>()
            &&& clones_exactly::<D>()
            &&& masks_distinct(source.masks_view())
            &&& masks_used_in_order(source.group_masks_view(), source.masks_view().len())
        }) ==> ({
            &&& target.same_as(source)
            &&& target.group_masks_view() == source.group_masks_view()
            &&& target.masks_view().len() == source.masks_view().len()
            &&& forall|k: int|
                0 <= k < source.masks_view().len() ==> #[trigger] masks_match(
                    target.masks_view()[k],
                    source.masks_view()[k],
                )
        }),
{
    let s = source.commands_view();
    let t = target.commands_view();
    let n = s.len() as int;
    assert forall|j: int| 0 <= j < n implies #[trigger] same_kind(t[j], s[j]) by {
        assert(replays(source, s[j], target.received()[0 + j]));
        assert(target.received()[j] == event_of(target, t[j]));
    }
    assert forall|k: int| 0 <= k < n implies t[k] == s[k] by {
        lemma_same_kinds_same_pushes(t, s, k);
        assert(same_kind(t[k], s[k]));
        assert(refers_to_next(t[k], pushes(t.take(k))));
        assert(refers_to_next(s[k], pushes(s.take(k))));
        lemma_command_determined(t[k], s[k]);
    }
    assert(t =~= s);
    lemma_same_kinds_same_pushes(t, s, n);
    assert(t.take(n) =~= t);
    assert(s.take(n) =~= s);
    assert forall|k: int| 0 <= k < n implies #[trigger] replays(source, s[k], event_of(target, s[k]))
        by {
        assert(replays(source, s[k], target.received()[0 + k]));
    }
    if vstd::laws_eq::obeys_concrete_eq::<C>() && vstd::laws_eq::obeys_concrete_eq::<G>()
        && vstd::laws_eq::obeys_concrete_eq::<D>() && clones_exactly::<C>() && clones_exactly::<G>()
        && clones_exactly::<D>() && masks_distinct(source.masks_view()) && masks_used_in_order(
        source.group_masks_view(),
        source.masks_view().len(),
    ) {
        let gs = source.group_masks_view();
        let gt = target.group_masks_view();
        assert(payloads_obey_eq::<C, G, D>()) by {
            reveal(vstd::laws_eq::obeys_concrete_eq);
        }
        assert forall|g: int| 0 <= g < gt.len() implies #[trigger] mask_use_matches(
            source.masks_view(),
            target.masks_view(),
            gs[g],
            gt[g],
        ) by {
            lemma_group_pushed(s, g as nat);
            let k = choose|k: int| 0 <= k < s.len() && #[trigger] pushes_group(s[k], g as nat);
            assert(replays(source, s[k], event_of(target, s[k])));
            lemma_group_mask_replayed(source, target, k, g as nat);
        }
        lemma_masks_follow(source.masks_view(), target.masks_view(), gs, gt, gt.len() as int);
        assert(gt.take(gt.len() as int) =~= gt);
        assert(gs.take(gs.len() as int) =~= gs);
        assert(masks_introduced(gs) == source.masks_view().len()) by {
            reveal(masks_used_in_order);
        }
        assert(masks_introduced(gt) == target.masks_view().len()) by {
            reveal(masks_used_in_order);
        }
        reveal(vstd::laws_eq::obeys_concrete_eq);
        assert forall|j: int| 0 <= j < target.clips_view().len() implies #[trigger] target.clips_view()[j].eq_spec(
            &source.clips_view()[j],
        ) by {
            lemma_clip_pushed(s, j as nat);
            let k = choose|k: int| 0 <= k < s.len() && #[trigger] pushes_clip(s[k], j as nat);
            assert(replays(source, s[k], event_of(target, s[k])));
            assert(cloned::<C>(source.clips_view()[j], target.clips_view()[j]));
        }
        assert forall|j: int| 0 <= j < target.groups_view().len() implies #[trigger] target.groups_view()[j].eq_spec(
            &source.groups_view()[j],
        ) by {
            lemma_group_pushed(s, j as nat);
            let k = choose|k: int| 0 <= k < s.len() && #[trigger] pushes_group(s[k], j as nat);
            assert(replays(source, s[k], event_of(target, s[k])));
            assert(cloned::<G>(source.groups_view()[j], target.groups_view()[j]));
        }
        assert forall|j: int| 0 <= j < target.draws_view().len() implies #[trigger] target.draws_view()[j].eq_spec(
            &source.draws_view()[j],
        ) by {
            lemma_draw_pushed(s, j as nat);
            let k = choose|k: int| 0 <= k < s.len() && #[trigger] pushes_draw(s[k], j as nat);
            assert(replays(source, s[k], event_of(target, s[k])));
            assert(cloned::<D>(source.draws_view()[j], target.draws_view()[j]));
        }
        target.lemma_same_as_from_parts(source);
    }
}

/// A command stream in push order stays in push order when cut short.
proof fn lemma_push_order_prefix(cmds: Seq<Command>, n: int)
    requires
        in_push_order(cmds),
        0 <= n <= cmds.len(),
    ensures
        in_push_order(cmds.take(n)),
{
    let p = cmds.take(n);
    assert forall|k: int| 0 <= k < p.len() implies #[trigger] refers_to_next(p[k], pushes(p.take(k))) by {
        assert(p.take(k) =~= cmds.take(k));
        assert(refers_to_next(cmds[k], pushes(cmds.take(k))));
    }
}

/// Whether `c` pushes the clip at position `g`.
pub open spec fn pushes_clip(c: Command, g: nat) -> bool {
    c matches Command::PushClip(id) && id@ == g
}

/// Whether `c` emits the draw at position `g`.
pub open spec fn pushes_draw(c: Command, g: nat) -> bool {
    c matches Command::Draw(id) && id@ == g
}

/// Whether `c` pushes the group at position `g`.
pub open spec fn pushes_group(c: Command, g: nat) -> bool {
    c matches Command::PushGroup(id) && id@ == g
}

/// In a command stream in push order, every group position below the count of group pushes is
/// pushed by some command.
proof fn lemma_group_pushed(cmds: Seq<Command>, g: nat)
    requires
        in_push_order(cmds),
        g < pushes(cmds).1,
    ensures
        exists|k: int| 0 <= k < cmds.len() && #[trigger] pushes_group(cmds[k], g),
    decreases cmds.len(),
{
    let n = cmds.len() as int;
    let p = cmds.drop_last();
    assert(p =~= cmds.take(n - 1));
    lemma_push_order_prefix(cmds, n - 1);
    if g < pushes(p).1 {
        lemma_group_pushed(p, g);
        let k = choose|k: int| 0 <= k < p.len() && #[trigger] pushes_group(p[k], g);
        assert(cmds[k] == p[k]);
    } else {
        assert(refers_to_next(cmds[n - 1], pushes(cmds.take(n - 1))));
        assert(cmds[n - 1] == cmds.last());
        assert(pushes_group(cmds[n - 1], g));
    }
}

/// In a command stream in push order, every clip position below the count of clip pushes is
/// pushed by some command.
proof fn lemma_clip_pushed(cmds: Seq<Command>, g: nat)
    requires
        in_push_order(cmds),
        g < pushes(cmds).0,
    ensures
        exists|k: int| 0 <= k < cmds.len() && #[trigger] pushes_clip(cmds[k], g),
    decreases cmds.len(),
{
    let n = cmds.len() as int;
    let p = cmds.drop_last();
    assert(p =~= cmds.take(n - 1));
    lemma_push_order_prefix(cmds, n - 1);
    if g < pushes(p).0 {
        lemma_clip_pushed(p, g);
        let k = choose|k: int| 0 <= k < p.len() && #[trigger] pushes_clip(p[k], g);
        assert(cmds[k] == p[k]);
    } else {
        assert(refers_to_next(cmds[n - 1], pushes(cmds.take(n - 1))));
        assert(cmds[n - 1] == cmds.last());
        assert(pushes_clip(cmds[n - 1], g));
    }
}

/// In a command stream in push order, every draw position below the count of draws is
/// pushed by some command.
proof fn lemma_draw_pushed(cmds: Seq<Command>, g: nat)
    requires
        in_push_order(cmds),
        g < pushes(cmds).2,
    ensures
        exists|k: int| 0 <= k < cmds.len() && #[trigger] pushes_draw(cmds[k], g),
    decreases cmds.len(),
{
    let n = cmds.len() as int;
    let p = cmds.drop_last();
    assert(p =~= cmds.take(n - 1));
    lemma_push_order_prefix(cmds, n - 1);
    if g < pushes(p).2 {
        lemma_draw_pushed(p, g);
        let k = choose|k: int| 0 <= k < p.len() && #[trigger] pushes_draw(p[k], g);
        assert(cmds[k] == p[k]);
    } else {
        assert(refers_to_next(cmds[n - 1], pushes(cmds.take(n - 1))));
        assert(cmds[n - 1] == cmds.last());
        assert(pushes_draw(cmds[n - 1], g));
    }
}

/// The number of definitions brought in never falls as more groups are looked at.
proof fn lemma_introduced_prefix(uses: Seq<Option<MaskId>>, i: int, j: int)
    requires
        0 <= i <= j <= uses.len(),
    ensures
        masks_introduced(uses.take(i)) <= masks_introduced(uses.take(j)),
    decreases j - i,
{
    if i < j {
        lemma_introduced_prefix(uses, i, j - 1);
        assert(uses.take(j).drop_last() =~= uses.take(j - 1));
    }
}

/// With plain equality, equality of mask definitions is symmetric and transitive.
proof fn lemma_masks_match_laws<C: PartialEq, G: PartialEq, D: PartialEq>(
    a: Mask<C, G, D>,
    b: Mask<C, G, D>,
    c: Mask<C, G, D>,
)
    requires
        vstd::laws_eq::obeys_concrete_eq::<C>(),
        vstd::laws_eq::obeys_concrete_eq::<G>(),
        vstd::laws_eq::obeys_concrete_eq::<D>(),
    ensures
        masks_match(a, b) ==> masks_match(b, a),
        masks_match(a, b) && masks_match(b, c) ==> masks_match(a, c),
{
    if masks_match(a, b) {
        a.scene.lemma_same_as_symmetric(b.scene);
        if masks_match(b, c) {
            a.scene.lemma_same_as_transitive(b.scene, c.scene);
        }
    }
}

/// Group `g`'s mask in the target (`used`) matches its mask in the source (`src_use`): both
/// absent, or definitions that are equal.
pub open spec fn mask_use_matches<C: PartialEq, G: PartialEq, D: PartialEq>(
    src_masks: Seq<Mask<C, G, D>>,
    masks: Seq<Mask<C, G, D>>,
    src_use: Option<MaskId>,
    used: Option<MaskId>,
) -> bool {
    match (src_use, used) {
        (None, None) => true,
        (Some(m), Some(t)) => masks_match(masks[t@ as int], src_masks[m@ as int]),
        _ => false,
    }
}

/// A definition at position `t` of `masks` that equals the one at `m` of `src_masks`, both at
/// most `n` and the first `n` of each table matching position by position, with each table's
/// definitions distinct, sits at the same position.
proof fn lemma_same_slot<C: PartialEq, G: PartialEq, D: PartialEq>(
    src_masks: Seq<Mask<C, G, D>>,
    masks: Seq<Mask<C, G, D>>,
    n: int,
    m: int,
    t: int,
)
    requires
        vstd::laws_eq::obeys_concrete_eq::<C>(),
        vstd::laws_eq::obeys_concrete_eq::<G>(),
        vstd::laws_eq::obeys_concrete_eq::<D>(),
        0 <= m <= n,
        0 <= t <= n,
        m < src_masks.len(),
        t < masks.len(),
        n <= src_masks.len(),
        n <= masks.len(),
        forall|k: int| 0 <= k < n ==> #[trigger] masks_match(masks[k], src_masks[k]),
        masks_match(masks[t], src_masks[m]),
        masks_distinct(src_masks),
        masks_distinct(masks),
    ensures
        t == m,
{
    reveal(masks_distinct);
    let sm = src_masks[m];
    let tm = masks[t];
    if t != m {
        if t < n {
            assert(masks_match(masks[t], src_masks[t]));
            lemma_masks_match_laws(masks[t], src_masks[t], sm);
            lemma_masks_match_laws(src_masks[t], masks[t], sm);
            if t < m {
                assert(!masks_match(src_masks[t], src_masks[m]));
            } else {
                lemma_masks_match_laws(src_masks[t], sm, src_masks[t]);
                assert(!masks_match(src_masks[m], src_masks[t]));
            }
        } else {
            assert(masks_match(masks[m], src_masks[m]));
            lemma_masks_match_laws(tm, sm, masks[m]);
            lemma_masks_match_laws(sm, masks[m], sm);
            lemma_masks_match_laws(masks[m], sm, tm);
            lemma_masks_match_laws(sm, tm, sm);
            assert(!masks_match(masks[m], masks[t]));
        }
    }
}

/// When groups use distinct definitions in definition order on both sides, and each group's
/// definitions match, the uses agree and the definitions brought in so far match position by
/// position.
#[verifier::rlimit(40)]
proof fn lemma_masks_follow<C: PartialEq, G: PartialEq, D: PartialEq>(
    src_masks: Seq<Mask<C, G, D>>,
    masks: Seq<Mask<C, G, D>>,
    src_uses: Seq<Option<MaskId>>,
    uses: Seq<Option<MaskId>>,
    g: int,
)
    requires
        vstd::laws_eq::obeys_concrete_eq::<C>(),
        vstd::laws_eq::obeys_concrete_eq::<G>(),
        vstd::laws_eq::obeys_concrete_eq::<D>(),
        src_uses.len() == uses.len(),
        0 <= g <= uses.len(),
        forall|i: int|
            0 <= i < uses.len() ==> #[trigger] mask_use_matches(src_masks, masks, src_uses[i], uses[i]),
        masks_used_in_order(src_uses, src_masks.len()),
        masks_used_in_order(uses, masks.len()),
        forall|i: int| 0 <= i < src_uses.len() ==> (#[trigger] src_uses[i] matches Some(m) ==> m@ < src_masks.len()),
        forall|i: int| 0 <= i < uses.len() ==> (#[trigger] uses[i] matches Some(m) ==> m@ < masks.len()),
        masks_distinct(src_masks),
        masks_distinct(masks),
    ensures
        uses.take(g) == src_uses.take(g),
        masks_introduced(src_uses.take(g)) <= src_masks.len(),
        masks_introduced(src_uses.take(g)) <= masks.len(),
        forall|k: int|
            0 <= k < masks_introduced(src_uses.take(g)) ==> #[trigger] masks_match(masks[k], src_masks[k]),
    decreases g,
{
    assert(masks_introduced(src_uses) == src_masks.len() && masks_introduced(uses) == masks.len()) by {
        reveal(masks_used_in_order);
    }
    lemma_introduced_prefix(src_uses, g, src_uses.len() as int);
    lemma_introduced_prefix(uses, g, uses.len() as int);
    assert(src_uses.take(src_uses.len() as int) =~= src_uses);
    assert(uses.take(uses.len() as int) =~= uses);
    if g == 0 {
        assert(uses.take(0) =~= src_uses.take(0));
    } else {
        lemma_masks_follow(src_masks, masks, src_uses, uses, g - 1);
        let n = masks_introduced(src_uses.take(g - 1));
        assert(uses.take(g).drop_last() =~= uses.take(g - 1));
        assert(src_uses.take(g).drop_last() =~= src_uses.take(g - 1));
        let a = src_uses[g - 1];
        let b = uses[g - 1];
        assert(mask_use_matches(src_masks, masks, a, b));
        if let (Some(m), Some(t)) = (a, b) {
            assert(m@ <= masks_introduced(src_uses.take(g - 1))) by {
                reveal(masks_used_in_order);
                assert(src_uses[g - 1] matches Some(mm) ==> mm@ <= masks_introduced(src_uses.take(g - 1)));
            }
            assert(t@ <= masks_introduced(uses.take(g - 1))) by {
                reveal(masks_used_in_order);
                assert(uses[g - 1] matches Some(mm) ==> mm@ <= masks_introduced(uses.take(g - 1)));
            }
            assert(m@ < src_masks.len());
            assert(t@ < masks.len());
            lemma_same_slot(src_masks, masks, n as int, m@ as int, t@ as int);
            lemma_mask_id_determined(t, m);
            assert(masks_match(masks[m@ as int], src_masks[m@ as int]));
        }
        assert(uses.take(g) =~= src_uses.take(g));
        assert(uses.take(g).last() == b);
        assert(src_uses.take(g).last() == a);
    }
}

} // verus!
