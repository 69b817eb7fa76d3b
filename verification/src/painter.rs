//! Painter-style authoring over a [`PaintSink`].
//!
//! A [`Painter`] owns a sink and brackets work: [`Painter::with_clip`] and
//! [`Painter::with_group`] push, run a closure on the painter, and pop, so the sink takes the push,
//! then the closure's calls, then exactly one pop. [`Painter::record_mask`] records a mask
//! definition into a fresh scene.

use vstd::prelude::*;

use crate::paint::{replay, recorded_in_order, replays_from, stands_for, PaintEvent, PaintSink};
use crate::record::{Mask, Scene};
use crate::MaskMode;

verus! {

/// The sink `after` is the sink `before` after taking a push of `clip`.
pub open spec fn took_clip_push<C: PartialEq, G: PartialEq, D: PartialEq, S: PaintSink<C, G, D>>(
    before: S,
    after: S,
    clip: C,
) -> bool {
    &&& after.received() == before.received().push(PaintEvent::PushClip(clip))
    &&& forall|c: int, g: int, d: int| #[trigger]
        before.has_room(c, g, d) ==> after.has_room(c - 1, g, d)
}

/// The sink `after` is the sink `before` after taking a push of `group` applying `mask`.
pub open spec fn took_group_push<C: PartialEq, G: PartialEq, D: PartialEq, S: PaintSink<C, G, D>>(
    before: S,
    after: S,
    group: G,
    mask: Option<Mask<C, G, D>>,
) -> bool {
    &&& after.received().len() == before.received().len() + 1
    &&& after.received().drop_last() == before.received()
    &&& after.received().last() matches PaintEvent::PushGroup(g, stored) && g == group
        && stands_for(stored, mask)
    &&& forall|c: int, g: int, d: int| #[trigger]
        before.has_room(c, g, d) ==> after.has_room(c, g - 1, d)
}

/// The sink went from `before` to `after` only by taking more calls, and can still take a pop.
pub open spec fn appends_and_keeps_room<C: PartialEq, G: PartialEq, D: PartialEq, S: PaintSink<
    C,
    G,
    D,
>>(before: S, after: S) -> bool {
    &&& before.received().len() <= after.received().len()
    &&& after.received().take(before.received().len() as int) == before.received()
    &&& exists|c: int, g: int, d: int| c >= 0 && g >= 0 && d >= 0 && #[trigger] after.has_room(c, g, d)
}

/// Whether `scene` holds nothing: no commands, payloads or mask definitions.
pub open spec fn is_empty_scene<C, G, D>(scene: Scene<C, G, D>) -> bool {
    &&& scene.commands_view().len() == 0
    &&& scene.clips_view().len() == 0
    &&& scene.masks_view().len() == 0
    &&& scene.groups_view().len() == 0
    &&& scene.group_masks_view().len() == 0
    &&& scene.draws_view().len() == 0
}

/// Painter-style authoring wrapper over a paint sink.
#[derive(Debug)]
pub struct Painter<S> {
    sink: S,
}

impl<S> Painter<S> {
    /// The wrapped sink.
    pub closed spec fn sink_view(self) -> S {
        self.sink
    }

    /// Wrap a paint sink with painter-style authoring helpers.
    pub fn new(sink: S) -> (r: Self)
        ensures
            r.sink_view() == sink,
    {
        Painter { sink }
    }

    /// Borrow the wrapped sink directly.
    pub fn sink_mut(&mut self) -> (r: &mut S)
        ensures
            *r == old(self).sink_view(),
            final(self).sink_view() == *final(r),
    {
        &mut self.sink
    }

    /// Give back the wrapped sink.
    pub fn into_inner(self) -> (r: S)
        ensures
            r == self.sink_view(),
    {
        self.sink
    }

    /// Push a clip onto the non-isolated clip stack; a later [`Painter::pop_clip`] must match it.
    pub fn push_clip<C: PartialEq, G: PartialEq, D: PartialEq>(&mut self, clip: C) where
        S: PaintSink<C, G, D>,

        requires
            exists|c: int, g: int, d: int|
                c >= 1 && g >= 0 && d >= 0 && #[trigger] old(self).sink_view().has_room(c, g, d),
        ensures
            took_clip_push(old(self).sink_view(), final(self).sink_view(), clip),
    {
        self.sink.push_clip(clip);
    }

    /// Pop the most recently pushed non-isolated clip.
    pub fn pop_clip<C: PartialEq, G: PartialEq, D: PartialEq>(&mut self) where
        S: PaintSink<C, G, D>,

        requires
            exists|c: int, g: int, d: int|
                c >= 0 && g >= 0 && d >= 0 && #[trigger] old(self).sink_view().has_room(c, g, d),
        ensures
            final(self).sink_view().received() == old(self).sink_view().received().push(
                PaintEvent::PopClip,
            ),
            forall|c: int, g: int, d: int| #[trigger]
                old(self).sink_view().has_room(c, g, d) ==> final(self).sink_view().has_room(c, g, d),
    {
        self.sink.pop_clip();
    }

    /// Push a clip, run `f` on the painter, then pop the clip: the sink takes the push, then
    /// the calls `f` makes, then one pop.
    pub fn with_clip<C: PartialEq, G: PartialEq, D: PartialEq, F: FnOnce(&mut Painter<S>)>(
        &mut self,
        clip: C,
        f: F,
    ) where S: PaintSink<C, G, D>,

        requires
            exists|c: int, g: int, d: int|
                c >= 1 && g >= 0 && d >= 0 && #[trigger] old(self).sink_view().has_room(c, g, d),
            forall|p: &mut Painter<S>|
                #[trigger] took_clip_push(old(self).sink_view(), (*p).sink_view(), clip)
                    ==> call_requires(f, (p,)),
            forall|p: &mut Painter<S>|
                took_clip_push(old(self).sink_view(), (*p).sink_view(), clip) && #[trigger] call_ensures(
                    f,
                    (p,),
                    (),
                ) ==> appends_and_keeps_room((*p).sink_view(), (*final(p)).sink_view()),
        ensures
            exists|p: &mut Painter<S>|
                took_clip_push(old(self).sink_view(), (*p).sink_view(), clip) && #[trigger] call_ensures(
                    f,
                    (p,),
                    (),
                ) && final(self).sink_view().received() == (*final(p)).sink_view().received().push(
                    PaintEvent::PopClip,
                ),
            final(self).sink_view().received().take(old(self).sink_view().received().len() + 1int)
                == old(self).sink_view().received().push(PaintEvent::PushClip(clip)),
            final(self).sink_view().received().last() is PopClip,
    {
        self.push_clip(clip);
        f(self);
        self.pop_clip();
    }

    /// Push an isolated group applying `mask`; a later [`Painter::pop_group`] must match it.
    pub fn push_group<C: PartialEq, G: PartialEq, D: PartialEq>(
        &mut self,
        group: G,
        mask: Option<Mask<C, G, D>>,
    ) where S: PaintSink<C, G, D>,

        requires
            exists|c: int, g: int, d: int|
                c >= 0 && g >= 1 && d >= 0 && #[trigger] old(self).sink_view().has_room(c, g, d),
        ensures
            took_group_push(old(self).sink_view(), final(self).sink_view(), group, mask),
    {
        self.sink.push_group(group, mask);
    }

    /// Pop the most recently pushed isolated group.
    pub fn pop_group<C: PartialEq, G: PartialEq, D: PartialEq>(&mut self) where
        S: PaintSink<C, G, D>,

        requires
            exists|c: int, g: int, d: int|
                c >= 0 && g >= 0 && d >= 0 && #[trigger] old(self).sink_view().has_room(c, g, d),
        ensures
            final(self).sink_view().received() == old(self).sink_view().received().push(
                PaintEvent::PopGroup,
            ),
            forall|c: int, g: int, d: int| #[trigger]
                old(self).sink_view().has_room(c, g, d) ==> final(self).sink_view().has_room(c, g, d),
    {
        self.sink.pop_group();
    }

    /// Push an isolated group applying `mask`, run `f` on the painter, then pop the group: the
    /// sink takes the push, then the calls `f` makes, then one pop.
    pub fn with_group<C: PartialEq, G: PartialEq, D: PartialEq, F: FnOnce(&mut Painter<S>)>(
        &mut self,
        group: G,
        mask: Option<Mask<C, G, D>>,
        f: F,
    ) where S: PaintSink<C, G, D>,

        requires
            exists|c: int, g: int, d: int|
                c >= 0 && g >= 1 && d >= 0 && #[trigger] old(self).sink_view().has_room(c, g, d),
            forall|p: &mut Painter<S>|
                #[trigger] took_group_push(old(self).sink_view(), (*p).sink_view(), group, mask)
                    ==> call_requires(f, (p,)),
            forall|p: &mut Painter<S>|
                took_group_push(old(self).sink_view(), (*p).sink_view(), group, mask)
                    && #[trigger] call_ensures(f, (p,), ()) ==> appends_and_keeps_room(
                    (*p).sink_view(),
                    (*final(p)).sink_view(),
                ),
        ensures
            exists|p: &mut Painter<S>|
                took_group_push(old(self).sink_view(), (*p).sink_view(), group, mask)
                    && #[trigger] call_ensures(f, (p,), ()) && final(self).sink_view().received()
                    == (*final(p)).sink_view().received().push(PaintEvent::PopGroup),
            final(self).sink_view().received().last() is PopGroup,
    {
        self.push_group(group, mask);
        f(self);
        self.pop_group();
    }

    /// Replay a recorded scene into the wrapped sink, as [`replay`] does.
    pub fn replay<C: Clone + PartialEq, G: Clone + PartialEq, D: Clone + PartialEq>(
        &mut self,
        scene: &Scene<C, G, D>,
    ) where S: PaintSink<C, G, D>,

        requires
            recorded_in_order(*scene),
            old(self).sink_view().has_room(
                scene.clips_view().len() as int,
                scene.groups_view().len() as int,
                scene.draws_view().len() as int,
            ),
        ensures
            final(self).sink_view().received().len() == old(self).sink_view().received().len()
                + scene.commands_view().len(),
            final(self).sink_view().received().take(old(self).sink_view().received().len() as int)
                == old(self).sink_view().received(),
            final(self).sink_view().has_room(0, 0, 0),
            replays_from(
                *scene,
                final(self).sink_view().received(),
                old(self).sink_view().received().len() as int,
            ),
    {
        replay(scene, &mut self.sink);
    }

    /// Record a one-off mask definition with `mask`, then push an isolated group applying it,
    /// run `content` on the painter, and pop the group.
    pub fn with_masked_group<
        C: PartialEq,
        G: PartialEq,
        D: PartialEq,
        M: FnOnce(&mut Painter<Scene<C, G, D>>),
        F: FnOnce(&mut Painter<S>),
    >(&mut self, group: G, mode: MaskMode, mask: M, content: F) where S: PaintSink<C, G, D>,

        requires
            exists|c: int, g: int, d: int|
                c >= 0 && g >= 1 && d >= 0 && #[trigger] old(self).sink_view().has_room(c, g, d),
            forall|q: &mut Painter<Scene<C, G, D>>|
                #[trigger] is_empty_scene((*q).sink_view()) ==> call_requires(mask, (q,)),
            forall|p: &mut Painter<S>, m: Mask<C, G, D>|
                #[trigger] took_group_push(old(self).sink_view(), (*p).sink_view(), group, Some(m))
                    ==> call_requires(content, (p,)),
            forall|p: &mut Painter<S>, m: Mask<C, G, D>|
                #[trigger] took_group_push(old(self).sink_view(), (*p).sink_view(), group, Some(m))
                    && #[trigger] call_ensures(content, (p,), ()) ==> appends_and_keeps_room(
                    (*p).sink_view(),
                    (*final(p)).sink_view(),
                ),
        ensures
            exists|m: Mask<C, G, D>|
                m.mode == mode && (exists|q: &mut Painter<Scene<C, G, D>>|
                    is_empty_scene((*q).sink_view()) && #[trigger] call_ensures(mask, (q,), ())
                        && m.scene == (*final(q)).sink_view()) && exists|p: &mut Painter<S>|
                    took_group_push(old(self).sink_view(), (*p).sink_view(), group, Some(m))
                        && #[trigger] call_ensures(content, (p,), ()) && final(self).sink_view().received()
                        == (*final(p)).sink_view().received().push(PaintEvent::PopGroup),
    {
        let m = Painter::<Scene<C, G, D>>::record_mask(mode, mask);
        self.with_group(group, Some(m), content);
    }
}

impl<C: PartialEq, G: PartialEq, D: PartialEq> Painter<Scene<C, G, D>> {
    /// Record a reusable mask definition: `f` paints into a fresh scene, which `mode` reads as
    /// alpha or luminance.
    pub fn record_mask<F: FnOnce(&mut Painter<Scene<C, G, D>>)>(mode: MaskMode, f: F) -> (r: Mask<
        C,
        G,
        D,
    >)
        requires
            forall|q: &mut Painter<Scene<C, G, D>>|
                #[trigger] is_empty_scene((*q).sink_view()) ==> call_requires(f, (q,)),
        ensures
            r.mode == mode,
            exists|q: &mut Painter<Scene<C, G, D>>|
                is_empty_scene((*q).sink_view()) && #[trigger] call_ensures(f, (q,), ())
                    && r.scene == (*final(q)).sink_view(),
    {
        let mut painter = Painter::new(Scene::new());
        assert(is_empty_scene(painter.sink_view()));
        f(&mut painter);
        Mask::new(mode, painter.into_inner())
    }
}

} // verus!
