//! Bookkeeping of a backend that translates a command stream as it arrives: the first error it
//! could not act on, and the depth of the clip and group stacks it has opened.

use vstd::prelude::*;

verus! {

/// How a translated command stream ended.
#[derive(Debug)]
pub enum StreamEnd<E> {
    /// An error was recorded while translating; the first one.
    Failed(E),
    /// More clips were pushed than popped.
    UnbalancedClips,
    /// More groups were pushed than popped.
    UnbalancedGroups,
    /// No error, and every clip and group was closed.
    Balanced,
}

/// The recorded error after an attempt to record `err`: the first error stays.
pub open spec fn error_after<E>(recorded: Option<E>, err: E) -> Option<E> {
    match recorded {
        Some(first) => Some(first),
        None => Some(err),
    }
}

/// How a stream with this recorded error and these stack depths ends.
pub open spec fn stream_end<E>(recorded: Option<E>, clip_depth: nat, group_depth: nat) -> StreamEnd<E> {
    match recorded {
        Some(err) => StreamEnd::Failed(err),
        None => if clip_depth != 0 {
            StreamEnd::UnbalancedClips
        } else if group_depth != 0 {
            StreamEnd::UnbalancedGroups
        } else {
            StreamEnd::Balanced
        },
    }
}

/// State of a stream translation: the first deferred error, the number of open clips, and the
/// frames of the open groups (innermost last).
pub struct StreamState<E, F> {
    error: Option<E>,
    clip_depth: u32,
    groups: Vec<F>,
}

impl<E, F> StreamState<E, F> {
    /// The first recorded error, if any.
    pub closed spec fn recorded(&self) -> Option<E> {
        self.error
    }

    /// Number of clips pushed and not yet popped.
    pub closed spec fn clip_depth_view(&self) -> nat {
        self.clip_depth as nat
    }

    /// Frames of the open groups, outermost first.
    pub closed spec fn groups_view(&self) -> Seq<F> {
        self.groups@
    }

    /// A fresh stream: no error, no open clip or group.
    pub fn new() -> (r: Self)
        ensures
            r.recorded() is None,
            r.clip_depth_view() == 0,
            r.groups_view() == Seq::<F>::empty(),
    {
        StreamState { error: None, clip_depth: 0, groups: Vec::new() }
    }

    /// Record `err` unless an error was recorded before.
    pub fn set_error_once(&mut self, err: E)
        ensures
            final(self).recorded() == error_after(old(self).recorded(), err),
            final(self).clip_depth_view() == old(self).clip_depth_view(),
            final(self).groups_view() == old(self).groups_view(),
    {
        if self.error.is_none() {
            self.error = Some(err);
        }
    }

    /// Number of clips pushed and not yet popped.
    pub fn clip_depth(&self) -> (r: u32)
        ensures
            r == self.clip_depth_view(),
    {
        self.clip_depth
    }

    /// Number of open groups.
    pub fn group_depth(&self) -> (r: usize)
        ensures
            r == self.groups_view().len(),
    {
        self.groups.len()
    }

    /// Note that a clip was pushed.
    pub fn push_clip(&mut self)
        requires
            old(self).clip_depth_view() < u32::MAX,
        ensures
            final(self).clip_depth_view() == old(self).clip_depth_view() + 1,
            final(self).recorded() == old(self).recorded(),
            final(self).groups_view() == old(self).groups_view(),
    {
        self.clip_depth = self.clip_depth + 1;
    }

    /// Whether commands are still translated: no error has been recorded.
    pub fn accepts(&self) -> (r: bool)
        ensures
            r == (self.recorded() is None),
    {
        self.error.is_none()
    }

    /// Note that a clip was popped; the caller restores its canvas only on `true`. Once an error
    /// is recorded nothing changes; with no clip open, `underflow` is recorded instead.
    pub fn pop_clip(&mut self, underflow: E) -> (popped: bool)
        ensures
            popped == (old(self).recorded() is None && old(self).clip_depth_view() > 0),
            popped ==> final(self).clip_depth_view() == old(self).clip_depth_view() - 1
                && final(self).recorded() == old(self).recorded(),
            !popped ==> final(self).clip_depth_view() == old(self).clip_depth_view()
                && final(self).recorded() == error_after(old(self).recorded(), underflow),
            final(self).groups_view() == old(self).groups_view(),
    {
        if self.error.is_some() {
            return false;
        }
        if self.clip_depth == 0 {
            self.set_error_once(underflow);
            return false;
        }
        self.clip_depth = self.clip_depth - 1;
        true
    }

    /// Open a group described by `frame`.
    pub fn push_group(&mut self, frame: F)
        ensures
            final(self).groups_view() == old(self).groups_view().push(frame),
            final(self).recorded() == old(self).recorded(),
            final(self).clip_depth_view() == old(self).clip_depth_view(),
    {
        self.groups.push(frame);
    }

    /// Open a group described by `frame` unless commands are no longer translated or the group
    /// asks for `filter_count` filters, which are not supported: then `unsupported` is recorded
    /// (as the first error only) and nothing opens. The caller opens its layer only on `true`.
    pub fn push_group_unless_filtered(&mut self, filter_count: usize, frame: F, unsupported: E) -> (opened: bool)
        ensures
            opened == (old(self).recorded() is None && filter_count == 0),
            opened ==> final(self).groups_view() == old(self).groups_view().push(frame)
                && final(self).recorded() == old(self).recorded(),
            !opened ==> final(self).groups_view() == old(self).groups_view()
                && final(self).recorded() == (if old(self).recorded() is None {
                    Some(unsupported)
                } else {
                    old(self).recorded()
                }),
            final(self).clip_depth_view() == old(self).clip_depth_view(),
    {
        if self.error.is_some() {
            return false;
        }
        if filter_count > 0 {
            self.set_error_once(unsupported);
            return false;
        }
        self.push_group(frame);
        true
    }

    /// Close the innermost group and hand back its frame. Once an error is recorded nothing
    /// changes; with no group open, `underflow` is recorded instead. Both give `None`.
    pub fn pop_group(&mut self, underflow: E) -> (r: Option<F>)
        ensures
            old(self).recorded() is Some ==> r is None && *final(self) == *old(self),
            old(self).recorded() is None && old(self).groups_view().len() == 0 ==> r is None
                && final(self).groups_view() == old(self).groups_view() && final(self).recorded()
                == Some(underflow),
            old(self).recorded() is None && old(self).groups_view().len() > 0 ==> r == Some(
                old(self).groups_view().last(),
            ) && final(self).groups_view() == old(self).groups_view().drop_last()
                && final(self).recorded() == old(self).recorded(),
            final(self).clip_depth_view() == old(self).clip_depth_view(),
    {
        if self.error.is_some() {
            return None;
        }
        match self.groups.pop() {
            Some(frame) => Some(frame),
            None => {
                self.set_error_once(underflow);
                None
            },
        }
    }

    /// End the stream: hand back the first recorded error (and forget it), or report a clip or
    /// group left open.
    pub fn finish(&mut self) -> (r: StreamEnd<E>)
        ensures
            r == stream_end(
                old(self).recorded(),
                old(self).clip_depth_view(),
                old(self).groups_view().len(),
            ),
            final(self).recorded() is None,
            final(self).clip_depth_view() == old(self).clip_depth_view(),
            final(self).groups_view() == old(self).groups_view(),
    {
        if let Some(err) = self.error.take() {
            return StreamEnd::Failed(err);
        }
        if self.clip_depth != 0 {
            return StreamEnd::UnbalancedClips;
        }
        if self.groups.len() != 0 {
            return StreamEnd::UnbalancedGroups;
        }
        StreamEnd::Balanced
    }
}

/// Once an error is recorded, later errors never replace it: the stream ends with the first.
pub proof fn law_first_error_sticks<E>(first: E, later: Seq<E>, clip_depth: nat, group_depth: nat)
    ensures
        forall|k: int|
            0 <= k <= later.len() ==> errors_after(Some(first), later.take(k)) == Some(first),
        stream_end(errors_after(Some(first), later), clip_depth, group_depth) == StreamEnd::Failed(
            first,
        ),
    decreases later.len(),
{
    if later.len() > 0 {
        law_first_error_sticks(first, later.drop_last(), clip_depth, group_depth);
        assert forall|k: int| 0 <= k <= later.len() implies errors_after(Some(first), later.take(k))
            == Some(first) by {
            if k < later.len() {
                assert(later.take(k) == later.drop_last().take(k));
            } else {
                assert(later.take(k) == later);
                assert(later.drop_last().take(later.len() - 1) == later.drop_last());
            }
        }
    } else {
        assert(later.take(0) == later);
    }
}

/// The recorded error after attempts to record each of `errs` in turn.
pub open spec fn errors_after<E>(recorded: Option<E>, errs: Seq<E>) -> Option<E>
    decreases errs.len(),
{
    if errs.len() == 0 {
        recorded
    } else {
        error_after(errors_after(recorded, errs.drop_last()), errs.last())
    }
}


/// Law: recording errors in turn keeps the first one: a recorded error stays, and with none
/// recorded the first of `later` is what remains.
pub proof fn law_first_recorded_error_wins<E>(first: Option<E>, later: Seq<E>)
    ensures
        errors_after(first, later) == (if first is Some {
            first
        } else if later.len() > 0 {
            Some(later[0])
        } else {
            None
        }),
    decreases later.len(),
{
    if later.len() > 0 {
        law_first_recorded_error_wins(first, later.drop_last());
        if later.len() > 1 {
            assert(later.drop_last()[0] == later[0]);
        }
    }
}

} // verus!
