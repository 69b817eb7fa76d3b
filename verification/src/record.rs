//! Owned recording of an imaging command stream.
//!
//! A [`Scene`] keeps the command stream (pushes and pops of clips and groups, and draws) together
//! with the payload tables the commands refer to by index. The payloads themselves (clip shapes,
//! group parameters and draw operations) are type parameters: the recording logic never looks
//! inside them, it only stores, counts and compares them.

use vstd::prelude::*;

use vstd::std_specs::cmp::PartialEqSpec;

use crate::MaskMode;
use crate::paint::{lemma_push_order_step, recorded_in_order};

verus! {

/// Identifier for a clip payload stored in a [`Scene`].
#[derive(Copy, Clone, Debug, PartialEq, Eq, Hash, Structural)]
pub struct ClipId(pub(crate) u32);

/// Identifier for a group payload stored in a [`Scene`].
#[derive(Copy, Clone, Debug, PartialEq, Eq, Hash, Structural)]
pub struct GroupId(pub(crate) u32);

/// Identifier for a mask payload stored in a [`Scene`].
#[derive(Copy, Clone, Debug, PartialEq, Eq, Hash, Structural)]
pub struct MaskId(pub(crate) u32);

/// Identifier for a draw payload stored in a [`Scene`].
#[derive(Copy, Clone, Debug, PartialEq, Eq, Hash, Structural)]
pub struct DrawId(pub(crate) u32);

impl View for ClipId {
    type V = u32;

    closed spec fn view(&self) -> u32 {
        self.0
    }
}

impl ClipId {
    /// Position of the clip payload in its scene's clip table.
    pub fn index(self) -> (r: u32)
        ensures
            r == self@,
    {
        self.0
    }
}

impl View for GroupId {
    type V = u32;

    closed spec fn view(&self) -> u32 {
        self.0
    }
}

impl GroupId {
    /// Position of the group payload in its scene's group table.
    pub fn index(self) -> (r: u32)
        ensures
            r == self@,
    {
        self.0
    }
}

impl View for MaskId {
    type V = u32;

    closed spec fn view(&self) -> u32 {
        self.0
    }
}

impl MaskId {
    /// Position of the mask definition in its scene's mask table.
    pub fn index(self) -> (r: u32)
        ensures
            r == self@,
    {
        self.0
    }
}

impl View for DrawId {
    type V = u32;

    closed spec fn view(&self) -> u32 {
        self.0
    }
}

impl DrawId {
    /// Position of the draw payload in its scene's draw table.
    pub fn index(self) -> (r: u32)
        ensures
            r == self@,
    {
        self.0
    }
}

/// A single command in a [`Scene`].
#[derive(Copy, Clone, Debug, PartialEq, Eq, Structural)]
pub enum Command {
    /// Push a non-isolated clip onto the clip stack.
    PushClip(ClipId),
    /// Pop the most recently pushed non-isolated clip.
    PopClip,
    /// Push an isolated group onto the group stack.
    PushGroup(GroupId),
    /// Pop the most recently pushed isolated group.
    PopGroup,
    /// Emit a draw command.
    Draw(DrawId),
}

/// Errors returned by [`Scene::validate`].
#[derive(Debug, PartialEq, Eq)]
pub enum ValidateError {
    /// A `PopClip` occurred without a matching prior `PushClip`.
    UnbalancedPopClip,
    /// A `PopGroup` occurred without a matching prior `PushGroup`.
    UnbalancedPopGroup,
    /// The command stream ended with open clips.
    UnclosedClips,
    /// The command stream ended with open groups.
    UnclosedGroups,
    /// A retained mask definition was invalid.
    InvalidMask(Box<ValidateError>),
}

/// A retained mask definition: a scene that produces coverage, and how to read it.
#[derive(Debug)]
pub struct Mask<C, G, D> {
    /// How this mask scene modulates masked content.
    pub mode: MaskMode,
    /// Scene that produces mask coverage values.
    pub scene: Scene<C, G, D>,
}

impl<C, G, D> Mask<C, G, D> {
    /// Create a mask definition from a retained scene and interpretation mode.
    pub fn new(mode: MaskMode, scene: Scene<C, G, D>) -> (r: Self)
        ensures
            r.mode == mode,
            r.scene == scene,
    {
        Mask { mode, scene }
    }
}

/// An owned, backend-agnostic recording of an imaging command stream.
///
/// `C`, `G` and `D` are the clip, group and draw payload types.
#[derive(Debug)]
pub struct Scene<C, G, D> {
    commands: Vec<Command>,
    clips: Vec<C>,
    masks: Vec<Mask<C, G, D>>,
    groups: Vec<G>,
    group_masks: Vec<Option<MaskId>>,
    draws: Vec<D>,
}

/// Net number of open clips after `cmds`: pushes count one up, pops one down.
pub open spec fn clip_balance(cmds: Seq<Command>) -> int
    decreases cmds.len(),
{
    if cmds.len() == 0 {
        0
    } else {
        clip_balance(cmds.drop_last()) + match cmds.last() {
            Command::PushClip(_) => 1int,
            Command::PopClip => -1int,
            _ => 0int,
        }
    }
}

/// Net number of open groups after `cmds`: pushes count one up, pops one down.
pub open spec fn group_balance(cmds: Seq<Command>) -> int
    decreases cmds.len(),
{
    if cmds.len() == 0 {
        0
    } else {
        group_balance(cmds.drop_last()) + match cmds.last() {
            Command::PushGroup(_) => 1int,
            Command::PopGroup => -1int,
            _ => 0int,
        }
    }
}

/// The error of the first pop in `cmds` that finds its stack empty, if there is one.
pub open spec fn first_underflow(cmds: Seq<Command>) -> Option<ValidateError>
    decreases cmds.len(),
{
    if cmds.len() == 0 {
        None
    } else {
        let prefix = cmds.drop_last();
        match first_underflow(prefix) {
            Some(e) => Some(e),
            None => match cmds.last() {
                Command::PopClip => if clip_balance(prefix) == 0 {
                    Some(ValidateError::UnbalancedPopClip)
                } else {
                    None
                },
                Command::PopGroup => if group_balance(prefix) == 0 {
                    Some(ValidateError::UnbalancedPopGroup)
                } else {
                    None
                },
                _ => None,
            },
        }
    }
}

/// Whether `a` and `b` are the same kind of command.
pub open spec fn same_kind(a: Command, b: Command) -> bool {
    match (a, b) {
        (Command::PushClip(_), Command::PushClip(_)) => true,
        (Command::PopClip, Command::PopClip) => true,
        (Command::PushGroup(_), Command::PushGroup(_)) => true,
        (Command::PopGroup, Command::PopGroup) => true,
        (Command::Draw(_), Command::Draw(_)) => true,
        _ => false,
    }
}

/// Mask identifiers naming the same table position are equal.
pub proof fn lemma_mask_id_determined(a: MaskId, b: MaskId)
    requires
        a@ == b@,
    ensures
        a == b,
{
}

/// Commands of the same kind whose identifiers name the same table position are equal.
pub proof fn lemma_command_determined(a: Command, b: Command)
    requires
        same_kind(a, b),
        match (a, b) {
            (Command::PushClip(x), Command::PushClip(y)) => x@ == y@,
            (Command::PushGroup(x), Command::PushGroup(y)) => x@ == y@,
            (Command::Draw(x), Command::Draw(y)) => x@ == y@,
            _ => true,
        },
    ensures
        a == b,
{
}

/// Appending `c` to `cmds` leaves `cmds` as the prefix and `c` as the last command.
proof fn lemma_command_step(cmds: Seq<Command>, c: Command)
    ensures
        cmds.push(c).drop_last() == cmds,
        cmds.push(c).last() == c,
{
    assert(cmds.push(c).drop_last() =~= cmds);
}

/// Outcome of checking a command stream for well-nested clip and group stacks.
pub open spec fn commands_check(cmds: Seq<Command>) -> Result<(), ValidateError> {
    match first_underflow(cmds) {
        Some(e) => Err(e),
        None => if clip_balance(cmds) != 0 {
            Err(ValidateError::UnclosedClips)
        } else if group_balance(cmds) != 0 {
            Err(ValidateError::UnclosedGroups)
        } else {
            Ok(())
        },
    }
}

/// Whether the clip, group and draw payload types compare as their specification says.
pub open spec fn payloads_obey_eq<C: PartialEq, G: PartialEq, D: PartialEq>() -> bool {
    &&& C::obeys_eq_spec()
    &&& G::obeys_eq_spec()
    &&& D::obeys_eq_spec()
}

/// Two payload sequences are equal element by element, by the payload type's equality.
pub open spec fn payloads_equal<T: PartialEq>(a: Seq<T>, b: Seq<T>) -> bool {
    &&& a.len() == b.len()
    &&& forall|i: int| 0 <= i < a.len() ==> #[trigger] a[i].eq_spec(&b[i])
}

impl<C, G, D> Scene<C, G, D> {
    /// The recorded command stream.
    pub closed spec fn commands_view(self) -> Seq<Command> {
        self.commands@
    }

    /// The clip payload table.
    pub closed spec fn clips_view(self) -> Seq<C> {
        self.clips@
    }

    /// The mask definition table.
    pub closed spec fn masks_view(self) -> Seq<Mask<C, G, D>> {
        self.masks@
    }

    /// The group payload table.
    pub closed spec fn groups_view(self) -> Seq<G> {
        self.groups@
    }

    /// The mask each group applies, by group position.
    pub closed spec fn group_masks_view(self) -> Seq<Option<MaskId>> {
        self.group_masks@
    }

    /// The draw payload table.
    pub closed spec fn draws_view(self) -> Seq<D> {
        self.draws@
    }

    /// Outcome of [`Scene::validate`]: the first invalid mask definition (in table order)
    /// is reported first, then the command stream is checked.
    pub open spec fn check(self) -> Result<(), ValidateError>
        decreases self, 0nat,
    {
        match Self::masks_check(self.masks_view(), self.masks_view().len()) {
            Some(e) => Err(ValidateError::InvalidMask(Box::new(e))),
            None => commands_check(self.commands_view()),
        }
    }

    /// Error of the first of the first `n` mask definitions whose scene is invalid.
    pub open spec fn masks_check(masks: Seq<Mask<C, G, D>>, n: nat) -> Option<ValidateError>
        decreases masks, n,
    {
        if n == 0 || n > masks.len() {
            None
        } else {
            match Self::masks_check(masks, (n - 1) as nat) {
                Some(e) => Some(e),
                None => match masks[n - 1].scene.check() {
                    Err(e) => Some(e),
                    Ok(()) => None,
                },
            }
        }
    }

    /// Create an empty scene.
    pub fn new() -> (r: Self)
        ensures
            r.commands_view() == Seq::<Command>::empty(),
            r.clips_view() == Seq::<C>::empty(),
            r.masks_view() == Seq::<Mask<C, G, D>>::empty(),
            r.groups_view() == Seq::<G>::empty(),
            r.group_masks_view() == Seq::<Option<MaskId>>::empty(),
            r.draws_view() == Seq::<D>::empty(),
    {
        Scene {
            commands: Vec::new(),
            clips: Vec::new(),
            masks: Vec::new(),
            groups: Vec::new(),
            group_masks: Vec::new(),
            draws: Vec::new(),
        }
    }

    /// Clear all recorded commands and payloads.
    pub fn clear(&mut self)
        ensures
            final(self).commands_view() == Seq::<Command>::empty(),
            final(self).clips_view() == Seq::<C>::empty(),
            final(self).masks_view() == Seq::<Mask<C, G, D>>::empty(),
            final(self).groups_view() == Seq::<G>::empty(),
            final(self).group_masks_view() == Seq::<Option<MaskId>>::empty(),
            final(self).draws_view() == Seq::<D>::empty(),
    {
        self.commands.clear();
        self.clips.clear();
        self.masks.clear();
        self.groups.clear();
        self.group_masks.clear();
        self.draws.clear();
    }

    /// Borrow the recorded command stream.
    pub fn commands(&self) -> (r: &[Command])
        ensures
            r@ == self.commands_view(),
    {
        self.commands.as_slice()
    }

    /// Resolve a clip payload by ID.
    pub fn clip(&self, id: ClipId) -> (r: &C)
        requires
            id@ < self.clips_view().len(),
        ensures
            *r == self.clips_view()[id@ as int],
    {
        &self.clips[id.0 as usize]
    }

    /// Resolve a mask definition by ID.
    pub fn mask(&self, id: MaskId) -> (r: &Mask<C, G, D>)
        requires
            id@ < self.masks_view().len(),
        ensures
            *r == self.masks_view()[id@ as int],
    {
        &self.masks[id.0 as usize]
    }

    /// Resolve a group payload by ID.
    pub fn group(&self, id: GroupId) -> (r: &G)
        requires
            id@ < self.groups_view().len(),
        ensures
            *r == self.groups_view()[id@ as int],
    {
        &self.groups[id.0 as usize]
    }

    /// The mask that group `id` applies, if any.
    pub fn group_mask(&self, id: GroupId) -> (r: Option<MaskId>)
        requires
            id@ < self.group_masks_view().len(),
        ensures
            r == self.group_masks_view()[id@ as int],
    {
        self.group_masks[id.0 as usize]
    }

    /// Resolve a draw payload by ID.
    pub fn draw_op(&self, id: DrawId) -> (r: &D)
        requires
            id@ < self.draws_view().len(),
        ensures
            *r == self.draws_view()[id@ as int],
    {
        &self.draws[id.0 as usize]
    }

    /// Number of recorded clip payloads.
    pub fn clip_count(&self) -> (r: usize)
        ensures
            r == self.clips_view().len(),
    {
        self.clips.len()
    }

    /// Number of recorded group payloads.
    pub fn group_count(&self) -> (r: usize)
        ensures
            r == self.groups_view().len(),
    {
        self.groups.len()
    }

    /// Number of recorded draw payloads.
    pub fn draw_count(&self) -> (r: usize)
        ensures
            r == self.draws_view().len(),
    {
        self.draws.len()
    }

    /// Number of defined masks.
    pub fn mask_count(&self) -> (r: usize)
        ensures
            r == self.masks_view().len(),
    {
        self.masks.len()
    }

    /// Push a non-isolated clip.
    pub fn push_clip(&mut self, clip: C) -> (id: ClipId)
        requires
            old(self).clips_view().len() <= u32::MAX,
        ensures
            id@ == old(self).clips_view().len(),
            final(self).clips_view() == old(self).clips_view().push(clip),
            final(self).commands_view() == old(self).commands_view().push(Command::PushClip(id)),
            final(self).masks_view() == old(self).masks_view(),
            final(self).groups_view() == old(self).groups_view(),
            final(self).group_masks_view() == old(self).group_masks_view(),
            final(self).draws_view() == old(self).draws_view(),
            clip_balance(final(self).commands_view()) == clip_balance(old(self).commands_view()) + 1,
            group_balance(final(self).commands_view()) == group_balance(old(self).commands_view()),
            first_underflow(final(self).commands_view()) == first_underflow(old(self).commands_view()),
            recorded_in_order(*old(self)) ==> recorded_in_order(*final(self)),
    {
        let id = ClipId(self.clips.len() as u32);
        self.clips.push(clip);
        self.commands.push(Command::PushClip(id));
        proof {
            lemma_command_step(old(self).commands@, Command::PushClip(id));
            if recorded_in_order(*old(self)) {
                lemma_push_order_step(old(self).commands@, Command::PushClip(id));
            }
        }
        id
    }

    /// Pop a non-isolated clip.
    pub fn pop_clip(&mut self)
        ensures
            final(self).commands_view() == old(self).commands_view().push(Command::PopClip),
            final(self).clips_view() == old(self).clips_view(),
            final(self).masks_view() == old(self).masks_view(),
            final(self).groups_view() == old(self).groups_view(),
            final(self).group_masks_view() == old(self).group_masks_view(),
            final(self).draws_view() == old(self).draws_view(),
            clip_balance(final(self).commands_view()) == clip_balance(old(self).commands_view()) - 1,
            group_balance(final(self).commands_view()) == group_balance(old(self).commands_view()),
            first_underflow(final(self).commands_view()) == (if first_underflow(old(self).commands_view()) is Some {
                first_underflow(old(self).commands_view())
            } else if clip_balance(old(self).commands_view()) == 0 {
                Some(ValidateError::UnbalancedPopClip)
            } else {
                None
            }),
            recorded_in_order(*old(self)) ==> recorded_in_order(*final(self)),
    {
        self.commands.push(Command::PopClip);
        proof {
            lemma_command_step(old(self).commands@, Command::PopClip);
            if recorded_in_order(*old(self)) {
                lemma_push_order_step(old(self).commands@, Command::PopClip);
            }
        }
    }

    /// Push an isolated group, applying the mask definition `mask` to its result.
    pub fn push_group(&mut self, group: G, mask: Option<MaskId>) -> (id: GroupId)
        requires
            old(self).groups_view().len() <= u32::MAX,
        ensures
            id@ == old(self).groups_view().len(),
            final(self).groups_view() == old(self).groups_view().push(group),
            final(self).group_masks_view() == old(self).group_masks_view().push(mask),
            final(self).commands_view() == old(self).commands_view().push(Command::PushGroup(id)),
            final(self).clips_view() == old(self).clips_view(),
            final(self).masks_view() == old(self).masks_view(),
            final(self).draws_view() == old(self).draws_view(),
            group_balance(final(self).commands_view()) == group_balance(old(self).commands_view()) + 1,
            clip_balance(final(self).commands_view()) == clip_balance(old(self).commands_view()),
            first_underflow(final(self).commands_view()) == first_underflow(old(self).commands_view()),
            recorded_in_order(*old(self)) && (mask matches Some(m) ==> m@ < old(self).masks_view().len())
                ==> recorded_in_order(*final(self)),
    {
        let id = GroupId(self.groups.len() as u32);
        self.groups.push(group);
        self.group_masks.push(mask);
        self.commands.push(Command::PushGroup(id));
        proof {
            lemma_command_step(old(self).commands@, Command::PushGroup(id));
            if recorded_in_order(*old(self)) {
                lemma_push_order_step(old(self).commands@, Command::PushGroup(id));
            }
        }
        id
    }

    /// Pop an isolated group.
    pub fn pop_group(&mut self)
        ensures
            final(self).commands_view() == old(self).commands_view().push(Command::PopGroup),
            final(self).clips_view() == old(self).clips_view(),
            final(self).masks_view() == old(self).masks_view(),
            final(self).groups_view() == old(self).groups_view(),
            final(self).group_masks_view() == old(self).group_masks_view(),
            final(self).draws_view() == old(self).draws_view(),
            group_balance(final(self).commands_view()) == group_balance(old(self).commands_view()) - 1,
            clip_balance(final(self).commands_view()) == clip_balance(old(self).commands_view()),
            first_underflow(final(self).commands_view()) == (if first_underflow(old(self).commands_view()) is Some {
                first_underflow(old(self).commands_view())
            } else if group_balance(old(self).commands_view()) == 0 {
                Some(ValidateError::UnbalancedPopGroup)
            } else {
                None
            }),
            recorded_in_order(*old(self)) ==> recorded_in_order(*final(self)),
    {
        self.commands.push(Command::PopGroup);
        proof {
            lemma_command_step(old(self).commands@, Command::PopGroup);
            if recorded_in_order(*old(self)) {
                lemma_push_order_step(old(self).commands@, Command::PopGroup);
            }
        }
    }

    /// Record a draw command.
    pub fn draw(&mut self, draw: D) -> (id: DrawId)
        requires
            old(self).draws_view().len() <= u32::MAX,
        ensures
            id@ == old(self).draws_view().len(),
            final(self).draws_view() == old(self).draws_view().push(draw),
            final(self).commands_view() == old(self).commands_view().push(Command::Draw(id)),
            final(self).clips_view() == old(self).clips_view(),
            final(self).masks_view() == old(self).masks_view(),
            final(self).groups_view() == old(self).groups_view(),
            final(self).group_masks_view() == old(self).group_masks_view(),
            clip_balance(final(self).commands_view()) == clip_balance(old(self).commands_view()),
            group_balance(final(self).commands_view()) == group_balance(old(self).commands_view()),
            first_underflow(final(self).commands_view()) == first_underflow(old(self).commands_view()),
            recorded_in_order(*old(self)) ==> recorded_in_order(*final(self)),
    {
        let id = DrawId(self.draws.len() as u32);
        self.draws.push(draw);
        self.commands.push(Command::Draw(id));
        proof {
            lemma_command_step(old(self).commands@, Command::Draw(id));
            if recorded_in_order(*old(self)) {
                lemma_push_order_step(old(self).commands@, Command::Draw(id));
            }
        }
        id
    }
}

impl<C, G, D> Scene<C, G, D> {
    /// The verdict on the first `n` masks depends on those masks only.
    proof fn lemma_masks_check_prefix(a: Seq<Mask<C, G, D>>, b: Seq<Mask<C, G, D>>, n: nat)
        requires
            n <= a.len(),
            n <= b.len(),
            forall|k: int| 0 <= k < n ==> a[k] == b[k],
        ensures
            Self::masks_check(a, n) == Self::masks_check(b, n),
        decreases n,
    {
        if n > 0 {
            Self::lemma_masks_check_prefix(a, b, (n - 1) as nat);
            assert(a[n - 1] == b[n - 1]);
        }
    }

    /// Once a mask among the first `k` is found invalid, later masks do not change the verdict.
    proof fn lemma_masks_check_extends(masks: Seq<Mask<C, G, D>>, k: nat, n: nat)
        requires
            k <= n <= masks.len(),
            Self::masks_check(masks, k) is Some,
        ensures
            Self::masks_check(masks, n) == Self::masks_check(masks, k),
        decreases n,
    {
        if n > k {
            Self::lemma_masks_check_extends(masks, k, (n - 1) as nat);
        }
    }

    /// Validate the mask definitions and the well-nesting of the clip and group stacks.
    ///
    /// Mask definitions are checked first, in table order, and the first invalid one is reported
    /// as [`ValidateError::InvalidMask`]. Then the first pop that finds its stack empty is
    /// reported, and finally a stream that leaves clips (then groups) open.
    pub fn validate(&self) -> (r: Result<(), ValidateError>)
        ensures
            r == self.check(),
        decreases self,
    {
        let n_masks = self.masks.len();
        let mut i: usize = 0;
        while i < n_masks
            invariant
                n_masks == self.masks@.len(),
                i <= n_masks,
                Self::masks_check(self.masks@, i as nat) is None,
            decreases n_masks - i,
        {
            proof {
                assert(decreases_to!(self => self.masks@[i as int].scene));
            }
            match self.masks[i].scene.validate() {
                Err(e) => {
                    proof {
                        assert(Self::masks_check(self.masks@, (i + 1) as nat) == Some(e));
                        Self::lemma_masks_check_extends(self.masks@, (i + 1) as nat, n_masks as nat);
                    }
                    return Err(ValidateError::InvalidMask(Box::new(e)));
                },
                Ok(()) => {},
            }
            i += 1;
        }
        let n = self.commands.len();
        let ghost cmds = self.commands@;
        let mut clip_depth: usize = 0;
        let mut group_depth: usize = 0;
        let mut j: usize = 0;
        while j < n
            invariant
                n == cmds.len(),
                cmds == self.commands@,
                Self::masks_check(self.masks@, self.masks@.len()) is None,
                j <= n,
                clip_depth <= j,
                group_depth <= j,
                first_underflow(cmds.take(j as int)) is None,
                clip_depth == clip_balance(cmds.take(j as int)),
                group_depth == group_balance(cmds.take(j as int)),
            decreases n - j,
        {
            let ghost prefix = cmds.take(j as int);
            let ghost next = cmds.take(j + 1);
            proof {
                assert(next.drop_last() =~= prefix);
                assert(next.last() == cmds[j as int]);
            }
            match self.commands[j] {
                Command::PushClip(_) => {
                    clip_depth += 1;
                },
                Command::PopClip => {
                    if clip_depth == 0 {
                        proof {
                            lemma_first_underflow_extends(cmds, (j + 1) as nat, n as nat);
                            assert(cmds.take(n as int) =~= cmds);
                        }
                        return Err(ValidateError::UnbalancedPopClip);
                    }
                    clip_depth -= 1;
                },
                Command::PushGroup(_) => {
                    group_depth += 1;
                },
                Command::PopGroup => {
                    if group_depth == 0 {
                        proof {
                            lemma_first_underflow_extends(cmds, (j + 1) as nat, n as nat);
                            assert(cmds.take(n as int) =~= cmds);
                        }
                        return Err(ValidateError::UnbalancedPopGroup);
                    }
                    group_depth -= 1;
                },
                Command::Draw(_) => {},
            }
            j += 1;
        }
        proof {
            assert(cmds.take(n as int) =~= cmds);
        }
        if clip_depth != 0 {
            return Err(ValidateError::UnclosedClips);
        }
        if group_depth != 0 {
            return Err(ValidateError::UnclosedGroups);
        }
        Ok(())
    }
}

/// Once a prefix of a command stream underflows, every longer prefix reports the same pop.
proof fn lemma_first_underflow_extends(cmds: Seq<Command>, k: nat, n: nat)
    requires
        k <= n <= cmds.len(),
        first_underflow(cmds.take(k as int)) is Some,
    ensures
        first_underflow(cmds.take(n as int)) == first_underflow(cmds.take(k as int)),
    decreases n,
{
    if n > k {
        lemma_first_underflow_extends(cmds, k, (n - 1) as nat);
        assert(cmds.take(n as int).drop_last() =~= cmds.take(n - 1));
    }
}

impl<C: PartialEq, G: PartialEq, D: PartialEq> Scene<C, G, D> {
    /// Scene equality: the same command stream, equal payload tables and equal mask definitions.
    pub closed spec fn same_as(self, other: Self) -> bool
        decreases self, 0nat,
    {
        &&& self.commands@ == other.commands@
        &&& payloads_equal(self.clips@, other.clips@)
        &&& payloads_equal(self.groups@, other.groups@)
        &&& self.group_masks@ == other.group_masks@
        &&& payloads_equal(self.draws@, other.draws@)
        &&& self.masks@.len() == other.masks@.len()
        &&& Self::masks_same(self.masks@, other.masks@, self.masks@.len())
    }

    /// The first `n` mask definitions of `a` and `b` are pairwise equal.
    pub closed spec fn masks_same(a: Seq<Mask<C, G, D>>, b: Seq<Mask<C, G, D>>, n: nat) -> bool
        decreases a, n,
    {
        if n == 0 || n > a.len() || n > b.len() {
            true
        } else {
            &&& Self::masks_same(a, b, (n - 1) as nat)
            &&& a[n - 1].mode == b[n - 1].mode
            &&& a[n - 1].scene.same_as(b[n - 1].scene)
        }
    }

    /// Compare two scenes by [`Scene::same_as`].
    fn equals(&self, other: &Self) -> (r: bool)
        ensures
            payloads_obey_eq::<C, G, D>() ==> r == self.same_as(*other),
        decreases self,
    {
        if !commands_equal(&self.commands, &other.commands) || !payload_vecs_equal(&self.clips, &other.clips)
            || !payload_vecs_equal(&self.groups, &other.groups) || !payload_vecs_equal(
            &self.draws,
            &other.draws,
        ) || !mask_ids_equal(&self.group_masks, &other.group_masks) || self.masks.len() != other.masks.len() {
            return false;
        }
        let n = self.masks.len();
        let mut i: usize = 0;
        while i < n
            invariant
                n == self.masks@.len(),
                n == other.masks@.len(),
                i <= n,
                payloads_obey_eq::<C, G, D>() ==> Self::masks_same(self.masks@, other.masks@, i as nat),
            decreases n - i,
        {
            proof {
                assert(decreases_to!(self => self.masks@[i as int].scene));
            }
            if self.masks[i].mode != other.masks[i].mode || !self.masks[i].scene.equals(
                &other.masks[i].scene,
            ) {
                proof {
                    if Self::masks_same(self.masks@, other.masks@, n as nat) {
                        lemma_masks_same_prefix::<C, G, D>(
                            self.masks@,
                            other.masks@,
                            (i + 1) as nat,
                            n as nat,
                        );
                    }
                }
                return false;
            }
            i += 1;
        }
        true
    }
}

/// Pairwise equality of the first `n` masks implies it for every shorter prefix.
proof fn lemma_masks_same_prefix<C: PartialEq, G: PartialEq, D: PartialEq>(
    a: Seq<Mask<C, G, D>>,
    b: Seq<Mask<C, G, D>>,
    k: nat,
    n: nat,
)
    requires
        k <= n <= a.len(),
        n <= b.len(),
        Scene::<C, G, D>::masks_same(a, b, n),
    ensures
        Scene::<C, G, D>::masks_same(a, b, k),
    decreases n,
{
    if n > k {
        lemma_masks_same_prefix::<C, G, D>(a, b, k, (n - 1) as nat);
    }
}

/// Compare two command streams element by element.
fn commands_equal(a: &Vec<Command>, b: &Vec<Command>) -> (r: bool)
    ensures
        r == (a@ == b@),
{
    if a.len() != b.len() {
        return false;
    }
    let n = a.len();
    let mut i: usize = 0;
    while i < n
        invariant
            n == a@.len(),
            n == b@.len(),
            i <= n,
            forall|k: int| 0 <= k < i ==> a@[k] == b@[k],
        decreases n - i,
    {
        if a[i] != b[i] {
            return false;
        }
        i += 1;
    }
    assert(a@ =~= b@);
    true
}

/// Compare two tables of group mask identifiers element by element.
fn mask_ids_equal(a: &Vec<Option<MaskId>>, b: &Vec<Option<MaskId>>) -> (r: bool)
    ensures
        r == (a@ == b@),
{
    if a.len() != b.len() {
        return false;
    }
    let n = a.len();
    let mut i: usize = 0;
    while i < n
        invariant
            n == a@.len(),
            n == b@.len(),
            i <= n,
            forall|k: int| 0 <= k < i ==> a@[k] == b@[k],
        decreases n - i,
    {
        let same = match (a[i], b[i]) {
            (None, None) => true,
            (Some(x), Some(y)) => x == y,
            _ => false,
        };
        if !same {
            return false;
        }
        i += 1;
    }
    assert(a@ =~= b@);
    true
}

/// Compare two payload tables element by element with the payload type's equality.
fn payload_vecs_equal<T: PartialEq>(a: &Vec<T>, b: &Vec<T>) -> (r: bool)
    ensures
        T::obeys_eq_spec() ==> r == payloads_equal(a@, b@),
{
    if a.len() != b.len() {
        return false;
    }
    let n = a.len();
    let mut i: usize = 0;
    while i < n
        invariant
            n == a@.len(),
            n == b@.len(),
            i <= n,
            T::obeys_eq_spec() ==> forall|k: int| 0 <= k < i ==> #[trigger] a@[k].eq_spec(&b@[k]),
        decreases n - i,
    {
        if !a[i].eq(&b[i]) {
            return false;
        }
        i += 1;
    }
    true
}

impl<C: PartialEq, G: PartialEq, D: PartialEq> PartialEq for Scene<C, G, D> {
    fn eq(&self, other: &Self) -> (r: bool) {
        self.equals(other)
    }
}

impl<C: PartialEq, G: PartialEq, D: PartialEq> vstd::std_specs::cmp::PartialEqSpecImpl for Scene<C, G, D> {
    open spec fn obeys_eq_spec() -> bool {
        payloads_obey_eq::<C, G, D>()
    }

    open spec fn eq_spec(&self, other: &Self) -> bool {
        self.same_as(*other)
    }
}

/// `slot` is where [`Scene::define_mask`] files `mask` in `masks`: the first equal definition,
/// or one past the end when there is none.
pub open spec fn is_mask_slot<C: PartialEq, G: PartialEq, D: PartialEq>(
    masks: Seq<Mask<C, G, D>>,
    mask: Mask<C, G, D>,
    slot: int,
) -> bool {
    &&& 0 <= slot <= masks.len()
    &&& forall|k: int| 0 <= k < slot ==> !masks_match(#[trigger] masks[k], mask)
    &&& slot < masks.len() ==> masks_match(masks[slot], mask)
}

/// Two mask definitions are equal: the same mode and equal scenes.
pub open spec fn masks_match<C: PartialEq, G: PartialEq, D: PartialEq>(
    a: Mask<C, G, D>,
    b: Mask<C, G, D>,
) -> bool {
    a.mode == b.mode && a.scene.same_as(b.scene)
}

impl<C: PartialEq, G: PartialEq, D: PartialEq> PartialEq for Mask<C, G, D> {
    fn eq(&self, other: &Self) -> (r: bool) {
        self.mode == other.mode && self.scene.equals(&other.scene)
    }
}

impl<C: PartialEq, G: PartialEq, D: PartialEq> vstd::std_specs::cmp::PartialEqSpecImpl for Mask<C, G, D> {
    open spec fn obeys_eq_spec() -> bool {
        payloads_obey_eq::<C, G, D>()
    }

    open spec fn eq_spec(&self, other: &Self) -> bool {
        masks_match(*self, *other)
    }
}

impl<C: PartialEq, G: PartialEq, D: PartialEq> Scene<C, G, D> {
    /// Define a reusable retained mask.
    ///
    /// If an equal mask is already defined, the first such definition is reused and the scene is
    /// left unchanged; otherwise the mask is appended to the mask table.
    pub fn define_mask(&mut self, mask: Mask<C, G, D>) -> (id: MaskId)
        requires
            old(self).masks_view().len() <= u32::MAX,
        ensures
            id@ <= old(self).masks_view().len(),
            id@ < old(self).masks_view().len() ==> final(self).masks_view() == old(
                self,
            ).masks_view(),
            id@ == old(self).masks_view().len() ==> final(self).masks_view() == old(
                self,
            ).masks_view().push(mask),
            final(self).commands_view() == old(self).commands_view(),
            final(self).clips_view() == old(self).clips_view(),
            final(self).groups_view() == old(self).groups_view(),
            final(self).group_masks_view() == old(self).group_masks_view(),
            final(self).draws_view() == old(self).draws_view(),
            payloads_obey_eq::<C, G, D>() ==> is_mask_slot(old(self).masks_view(), mask, id@ as int),
            recorded_in_order(*old(self)) ==> recorded_in_order(*final(self)),
            id@ == old(self).masks_view().len() ==> Self::masks_check(
                final(self).masks_view(),
                final(self).masks_view().len(),
            ) == (match Self::masks_check(old(self).masks_view(), old(self).masks_view().len()) {
                Some(e) => Some(e),
                None => match mask.scene.check() {
                    Err(e) => Some(e),
                    Ok(()) => None,
                },
            }),
    {
        let n = self.masks.len();
        let mut i: usize = 0;
        while i < n
            invariant
                n == self.masks@.len(),
                n <= u32::MAX,
                i <= n,
                payloads_obey_eq::<C, G, D>() ==> forall|k: int|
                    0 <= k < i ==> !masks_match(#[trigger] self.masks@[k], mask),
            decreases n - i,
        {
            if self.masks[i].mode == mask.mode && self.masks[i].scene.equals(&mask.scene) {
                return MaskId(i as u32);
            }
            i += 1;
        }
        let id = MaskId(n as u32);
        let ghost before = self.masks@;
        self.masks.push(mask);
        proof {
            Self::lemma_masks_check_prefix(before, self.masks@, n as nat);
        }
        id
    }
}

/// `copy` holds, position by position, clones of the payloads in `src`.
pub open spec fn payloads_cloned<T: Clone>(src: Seq<T>, copy: Seq<T>) -> bool {
    &&& src.len() == copy.len()
    &&& forall|i: int| 0 <= i < src.len() ==> cloned::<T>(#[trigger] src[i], copy[i])
}

impl<C: Clone, G: Clone, D: Clone> Scene<C, G, D> {
    /// `self` is a clone of `src`: the same commands, cloned payloads and cloned mask definitions
    /// with the same modes.
    pub closed spec fn clone_of(self, src: Self) -> bool
        decreases self, 0nat,
    {
        &&& self.commands@ == src.commands@
        &&& payloads_cloned(src.clips@, self.clips@)
        &&& payloads_cloned(src.groups@, self.groups@)
        &&& self.group_masks@ == src.group_masks@
        &&& payloads_cloned(src.draws@, self.draws@)
        &&& self.masks@.len() == src.masks@.len()
        &&& Self::masks_cloned(self.masks@, src.masks@, self.masks@.len())
    }

    /// The first `n` masks of `copy` are clones of those of `src`.
    pub closed spec fn masks_cloned(copy: Seq<Mask<C, G, D>>, src: Seq<Mask<C, G, D>>, n: nat) -> bool
        decreases copy, n,
    {
        if n == 0 || n > copy.len() || n > src.len() {
            true
        } else {
            &&& Self::masks_cloned(copy, src, (n - 1) as nat)
            &&& copy[n - 1].mode == src[n - 1].mode
            &&& copy[n - 1].scene.clone_of(src[n - 1].scene)
        }
    }

    fn deep_clone(&self) -> (r: Self)
        ensures
            r.clone_of(*self),
        decreases self,
    {
        let n = self.masks.len();
        let mut masks: Vec<Mask<C, G, D>> = Vec::new();
        let mut i: usize = 0;
        while i < n
            invariant
                n == self.masks@.len(),
                i <= n,
                masks@.len() == i,
                Self::masks_cloned(masks@, self.masks@, i as nat),
            decreases n - i,
        {
            proof {
                assert(decreases_to!(self => self.masks@[i as int].scene));
            }
            let scene = self.masks[i].scene.deep_clone();
            let ghost before = masks@;
            masks.push(Mask { mode: self.masks[i].mode, scene });
            proof {
                lemma_masks_cloned_push::<C, G, D>(before, masks@, self.masks@, i as nat);
            }
            i += 1;
        }
        let commands = self.commands.clone();
        let group_masks = self.group_masks.clone();
        proof {
            assert(commands@ =~= self.commands@);
            assert(group_masks@ =~= self.group_masks@);
        }
        Scene {
            commands,
            clips: self.clips.clone(),
            masks,
            groups: self.groups.clone(),
            group_masks,
            draws: self.draws.clone(),
        }
    }
}

/// Appending one more cloned mask extends the cloned prefix by one.
proof fn lemma_masks_cloned_push<C: Clone, G: Clone, D: Clone>(
    before: Seq<Mask<C, G, D>>,
    after: Seq<Mask<C, G, D>>,
    src: Seq<Mask<C, G, D>>,
    i: nat,
)
    requires
        before.len() == i,
        i < src.len(),
        after.len() == i + 1,
        forall|k: int| 0 <= k < i ==> after[k] == before[k],
        after[i as int].mode == src[i as int].mode,
        after[i as int].scene.clone_of(src[i as int].scene),
        Scene::<C, G, D>::masks_cloned(before, src, i),
    ensures
        Scene::<C, G, D>::masks_cloned(after, src, i + 1),
{
    lemma_masks_cloned_same_prefix::<C, G, D>(before, after, src, i);
}

/// The cloned-prefix relation only looks at the first `n` masks.
proof fn lemma_masks_cloned_same_prefix<C: Clone, G: Clone, D: Clone>(
    a: Seq<Mask<C, G, D>>,
    b: Seq<Mask<C, G, D>>,
    src: Seq<Mask<C, G, D>>,
    n: nat,
)
    requires
        n <= a.len(),
        n <= b.len(),
        n <= src.len(),
        forall|k: int| 0 <= k < n ==> b[k] == a[k],
        Scene::<C, G, D>::masks_cloned(a, src, n),
    ensures
        Scene::<C, G, D>::masks_cloned(b, src, n),
    decreases n,
{
    if n > 0 {
        lemma_masks_cloned_same_prefix::<C, G, D>(a, b, src, (n - 1) as nat);
    }
}

impl<C: Clone, G: Clone, D: Clone> Clone for Scene<C, G, D> {
    fn clone(&self) -> (r: Self)
        ensures
            r.clone_of(*self),
    {
        self.deep_clone()
    }
}

impl<C: Clone, G: Clone, D: Clone> Clone for Mask<C, G, D> {
    fn clone(&self) -> (r: Self)
        ensures
            r.mode == self.mode,
            r.scene.clone_of(self.scene),
    {
        Mask { mode: self.mode, scene: self.scene.deep_clone() }
    }
}

impl<C, G, D> Default for Scene<C, G, D> {
    fn default() -> (r: Self)
        ensures
            r.commands_view() == Seq::<Command>::empty(),
            r.clips_view() == Seq::<C>::empty(),
            r.masks_view() == Seq::<Mask<C, G, D>>::empty(),
            r.groups_view() == Seq::<G>::empty(),
            r.group_masks_view() == Seq::<Option<MaskId>>::empty(),
            r.draws_view() == Seq::<D>::empty(),
    {
        Self::new()
    }
}

impl<C, G, D> Scene<C, G, D> {
    /// Reserve space for additional recorded payloads.
    pub fn reserve_additional(
        &mut self,
        commands: usize,
        clips: usize,
        groups: usize,
        draws: usize,
        masks: usize,
    )
        ensures
            final(self).commands_view() == old(self).commands_view(),
            final(self).clips_view() == old(self).clips_view(),
            final(self).masks_view() == old(self).masks_view(),
            final(self).groups_view() == old(self).groups_view(),
            final(self).group_masks_view() == old(self).group_masks_view(),
            final(self).draws_view() == old(self).draws_view(),
    {
        self.commands.reserve(commands);
        self.clips.reserve(clips);
        self.masks.reserve(masks);
        self.groups.reserve(groups);
        self.group_masks.reserve(groups);
        self.draws.reserve(draws);
    }

    /// Reserve enough additional space to append another scene's current contents.
    pub fn reserve_like(&mut self, other: &Self)
        ensures
            final(self).commands_view() == old(self).commands_view(),
            final(self).clips_view() == old(self).clips_view(),
            final(self).masks_view() == old(self).masks_view(),
            final(self).groups_view() == old(self).groups_view(),
            final(self).group_masks_view() == old(self).group_masks_view(),
            final(self).draws_view() == old(self).draws_view(),
    {
        self.reserve_additional(
            other.commands.len(),
            other.clips.len(),
            other.masks.len(),
            other.groups.len(),
            other.draws.len(),
        );
    }
}

/// The pop at position `k` of `cmds` (if it is one) finds its stack non-empty.
pub open spec fn pop_ok(cmds: Seq<Command>, k: int) -> bool {
    match cmds[k] {
        Command::PopClip => clip_balance(cmds.take(k)) > 0,
        Command::PopGroup => group_balance(cmds.take(k)) > 0,
        _ => true,
    }
}

/// Balances add up over concatenated streams.
proof fn lemma_balance_concat(a: Seq<Command>, b: Seq<Command>)
    ensures
        clip_balance(a + b) == clip_balance(a) + clip_balance(b),
        group_balance(a + b) == group_balance(a) + group_balance(b),
    decreases b.len(),
{
    if b.len() > 0 {
        lemma_balance_concat(a, b.drop_last());
        assert((a + b).drop_last() =~= a + b.drop_last());
        assert((a + b).last() == b.last());
    }
}

/// A stream has no underflowing pop exactly when every pop finds its stack non-empty; then its
/// balances never drop below zero.
proof fn lemma_no_underflow_iff(cmds: Seq<Command>)
    ensures
        first_underflow(cmds) is None <==> forall|k: int| 0 <= k < cmds.len() ==> pop_ok(cmds, k),
        first_underflow(cmds) is None ==> clip_balance(cmds) >= 0 && group_balance(cmds) >= 0,
    decreases cmds.len(),
{
    if cmds.len() > 0 {
        let prefix = cmds.drop_last();
        lemma_no_underflow_iff(prefix);
        assert forall|k: int| 0 <= k < prefix.len() implies pop_ok(prefix, k) == pop_ok(cmds, k) by {
            assert(prefix.take(k) =~= cmds.take(k));
        }
        assert(cmds.take(prefix.len() as int) =~= prefix);
        if first_underflow(cmds) is None {
            assert forall|k: int| 0 <= k < cmds.len() implies pop_ok(cmds, k) by {
                if k < prefix.len() {
                    assert(pop_ok(prefix, k));
                }
            }
        }
        if forall|k: int| 0 <= k < cmds.len() ==> pop_ok(cmds, k) {
            assert forall|k: int| 0 <= k < prefix.len() implies pop_ok(prefix, k) by {
                assert(pop_ok(cmds, k));
            }
            assert(pop_ok(cmds, prefix.len() as int));
        }
    }
}

/// Well-nested streams are exactly those whose pops all find their stacks non-empty and whose
/// balances end at zero.
proof fn lemma_commands_ok_iff(cmds: Seq<Command>)
    ensures
        commands_check(cmds) is Ok <==> {
            &&& forall|k: int| 0 <= k < cmds.len() ==> pop_ok(cmds, k)
            &&& clip_balance(cmds) == 0
            &&& group_balance(cmds) == 0
        },
{
    lemma_no_underflow_iff(cmds);
}

/// Law: two well-nested command streams recorded one after the other are well-nested.
pub proof fn law_concat_keeps_valid(a: Seq<Command>, b: Seq<Command>)
    requires
        commands_check(a) is Ok,
        commands_check(b) is Ok,
    ensures
        commands_check(a + b) is Ok,
{
    lemma_commands_ok_iff(a);
    lemma_commands_ok_iff(b);
    lemma_commands_ok_iff(a + b);
    lemma_balance_concat(a, b);
    assert forall|k: int| 0 <= k < (a + b).len() implies pop_ok(a + b, k) by {
        if k < a.len() {
            assert((a + b).take(k) =~= a.take(k));
            assert(pop_ok(a, k));
        } else {
            let j = k - a.len();
            assert((a + b).take(k) =~= a + b.take(j));
            lemma_balance_concat(a, b.take(j));
            assert(pop_ok(b, j));
        }
    }
}

/// Law: wrapping a well-nested stream in a clip push and its pop keeps it well-nested.
pub proof fn law_nested_clip_keeps_valid(body: Seq<Command>, id: ClipId)
    requires
        commands_check(body) is Ok,
    ensures
        commands_check(seq![Command::PushClip(id)] + body + seq![Command::PopClip]) is Ok,
{
    let open_ = seq![Command::PushClip(id)];
    let close = seq![Command::PopClip];
    let whole = open_ + body + close;
    lemma_commands_ok_iff(body);
    lemma_commands_ok_iff(whole);
    lemma_balance_concat(open_, body);
    lemma_balance_concat(open_ + body, close);
    reveal_with_fuel(clip_balance, 2);
    reveal_with_fuel(group_balance, 2);
    assert(open_.last() == open_[0]);
    assert(close.last() == close[0]);
    assert(clip_balance(open_) == 1) by {
        assert(open_.drop_last() =~= Seq::<Command>::empty());
    }
    assert(group_balance(open_) == 0) by {
        assert(open_.drop_last() =~= Seq::<Command>::empty());
    }
    assert(clip_balance(close) == -1) by {
        assert(close.drop_last() =~= Seq::<Command>::empty());
    }
    assert(group_balance(close) == 0) by {
        assert(close.drop_last() =~= Seq::<Command>::empty());
    }
    assert forall|k: int| 0 <= k < whole.len() implies pop_ok(whole, k) by {
        if 1 <= k <= body.len() {
            let j = k - 1;
            assert(whole.take(k) =~= open_ + body.take(j));
            assert(whole[k] == body[j]);
            lemma_balance_concat(open_, body.take(j));
            assert(pop_ok(body, j));
        } else if k == body.len() + 1 {
            assert(whole.take(k) =~= open_ + body);
        }
    }
}

/// Law: wrapping a well-nested stream in a group push and its pop keeps it well-nested.
pub proof fn law_nested_group_keeps_valid(body: Seq<Command>, id: GroupId)
    requires
        commands_check(body) is Ok,
    ensures
        commands_check(seq![Command::PushGroup(id)] + body + seq![Command::PopGroup]) is Ok,
{
    let open_ = seq![Command::PushGroup(id)];
    let close = seq![Command::PopGroup];
    let whole = open_ + body + close;
    lemma_commands_ok_iff(body);
    lemma_commands_ok_iff(whole);
    lemma_balance_concat(open_, body);
    lemma_balance_concat(open_ + body, close);
    reveal_with_fuel(clip_balance, 2);
    reveal_with_fuel(group_balance, 2);
    assert(open_.last() == open_[0]);
    assert(close.last() == close[0]);
    assert(group_balance(open_) == 1) by {
        assert(open_.drop_last() =~= Seq::<Command>::empty());
    }
    assert(clip_balance(open_) == 0) by {
        assert(open_.drop_last() =~= Seq::<Command>::empty());
    }
    assert(group_balance(close) == -1) by {
        assert(close.drop_last() =~= Seq::<Command>::empty());
    }
    assert(clip_balance(close) == 0) by {
        assert(close.drop_last() =~= Seq::<Command>::empty());
    }
    assert forall|k: int| 0 <= k < whole.len() implies pop_ok(whole, k) by {
        if 1 <= k <= body.len() {
            let j = k - 1;
            assert(whole.take(k) =~= open_ + body.take(j));
            assert(whole[k] == body[j]);
            lemma_balance_concat(open_, body.take(j));
            assert(pop_ok(body, j));
        } else if k == body.len() + 1 {
            assert(whole.take(k) =~= open_ + body);
        }
    }
}

/// Law: a draw never changes whether a stream is well-nested.
pub proof fn law_draw_keeps_validity(cmds: Seq<Command>, id: DrawId)
    ensures
        commands_check(cmds.push(Command::Draw(id))) == commands_check(cmds),
{
    let whole = cmds.push(Command::Draw(id));
    assert(whole.drop_last() =~= cmds);
}

/// Law: a pop on an empty stack is always reported, whatever follows it.
pub proof fn law_leading_pop_is_reported(rest: Seq<Command>)
    ensures
        commands_check(seq![Command::PopClip] + rest) == Err::<(), ValidateError>(
            ValidateError::UnbalancedPopClip,
        ),
        commands_check(seq![Command::PopGroup] + rest) == Err::<(), ValidateError>(
            ValidateError::UnbalancedPopGroup,
        ),
{
    let a = seq![Command::PopClip] + rest;
    let b = seq![Command::PopGroup] + rest;
    reveal_with_fuel(first_underflow, 2);
    assert(a.take(1).drop_last() =~= Seq::<Command>::empty());
    assert(b.take(1).drop_last() =~= Seq::<Command>::empty());
    assert(a.take(1).last() == Command::PopClip);
    assert(b.take(1).last() == Command::PopGroup);
    assert(clip_balance(Seq::<Command>::empty()) == 0);
    assert(group_balance(Seq::<Command>::empty()) == 0);
    assert(first_underflow(a.take(1)) == Some(ValidateError::UnbalancedPopClip));
    assert(first_underflow(b.take(1)) == Some(ValidateError::UnbalancedPopGroup));
    lemma_first_underflow_extends(a, 1, a.len());
    lemma_first_underflow_extends(b, 1, b.len());
    assert(a.take(a.len() as int) =~= a);
    assert(b.take(b.len() as int) =~= b);
}

impl<C: PartialEq, G: PartialEq, D: PartialEq> Scene<C, G, D> {
    /// With payload equality that is plain equality, every scene equals itself.
    proof fn lemma_same_as_reflexive(self)
        requires
            vstd::laws_eq::obeys_concrete_eq::<C>(),
            vstd::laws_eq::obeys_concrete_eq::<G>(),
            vstd::laws_eq::obeys_concrete_eq::<D>(),
        ensures
            self.same_as(self),
        decreases self,
    {
        reveal(vstd::laws_eq::obeys_concrete_eq);
        Self::lemma_masks_same_reflexive(self.masks@, self.masks@.len());
    }

    proof fn lemma_masks_same_reflexive(masks: Seq<Mask<C, G, D>>, n: nat)
        requires
            vstd::laws_eq::obeys_concrete_eq::<C>(),
            vstd::laws_eq::obeys_concrete_eq::<G>(),
            vstd::laws_eq::obeys_concrete_eq::<D>(),
            n <= masks.len(),
        ensures
            Self::masks_same(masks, masks, n),
        decreases masks, n,
    {
        if n > 0 {
            Self::lemma_masks_same_reflexive(masks, (n - 1) as nat);
            assert(decreases_to!(masks => masks[n - 1]));
            masks[n - 1].scene.lemma_same_as_reflexive();
        }
    }
}

/// With plain equality, element-wise payload equality is symmetric and transitive.
proof fn lemma_payloads_equal_laws<T: PartialEq>(a: Seq<T>, b: Seq<T>, c: Seq<T>)
    requires
        vstd::laws_eq::obeys_concrete_eq::<T>(),
    ensures
        payloads_equal(a, b) ==> payloads_equal(b, a),
        payloads_equal(a, b) && payloads_equal(b, c) ==> payloads_equal(a, c),
{
    reveal(vstd::laws_eq::obeys_concrete_eq);
    if payloads_equal(a, b) {
        assert forall|i: int| 0 <= i < b.len() implies #[trigger] b[i].eq_spec(&a[i]) by {
            assert(a[i].eq_spec(&b[i]));
        }
        if payloads_equal(b, c) {
            assert forall|i: int| 0 <= i < a.len() implies #[trigger] a[i].eq_spec(&c[i]) by {
                assert(a[i].eq_spec(&b[i]));
                assert(b[i].eq_spec(&c[i]));
            }
        }
    }
}

impl<C: PartialEq, G: PartialEq, D: PartialEq> Scene<C, G, D> {
    /// With payload equality that is plain equality, scene equality is symmetric.
    pub proof fn lemma_same_as_symmetric(self, other: Self)
        requires
            vstd::laws_eq::obeys_concrete_eq::<C>(),
            vstd::laws_eq::obeys_concrete_eq::<G>(),
            vstd::laws_eq::obeys_concrete_eq::<D>(),
            self.same_as(other),
        ensures
            other.same_as(self),
        decreases self,
    {
        lemma_payloads_equal_laws(self.clips@, other.clips@, self.clips@);
        lemma_payloads_equal_laws(self.groups@, other.groups@, self.groups@);
        lemma_payloads_equal_laws(self.draws@, other.draws@, self.draws@);
        Self::lemma_masks_same_symmetric(self.masks@, other.masks@, self.masks@.len());
    }

    proof fn lemma_masks_same_symmetric(a: Seq<Mask<C, G, D>>, b: Seq<Mask<C, G, D>>, n: nat)
        requires
            vstd::laws_eq::obeys_concrete_eq::<C>(),
            vstd::laws_eq::obeys_concrete_eq::<G>(),
            vstd::laws_eq::obeys_concrete_eq::<D>(),
            n <= a.len(),
            n <= b.len(),
            Self::masks_same(a, b, n),
        ensures
            Self::masks_same(b, a, n),
        decreases a, n,
    {
        if n > 0 {
            Self::lemma_masks_same_symmetric(a, b, (n - 1) as nat);
            assert(decreases_to!(a => a[n - 1]));
            a[n - 1].scene.lemma_same_as_symmetric(b[n - 1].scene);
        }
    }

    /// With payload equality that is plain equality, scene equality is transitive.
    pub proof fn lemma_same_as_transitive(self, mid: Self, other: Self)
        requires
            vstd::laws_eq::obeys_concrete_eq::<C>(),
            vstd::laws_eq::obeys_concrete_eq::<G>(),
            vstd::laws_eq::obeys_concrete_eq::<D>(),
            self.same_as(mid),
            mid.same_as(other),
        ensures
            self.same_as(other),
        decreases self,
    {
        lemma_payloads_equal_laws(self.clips@, mid.clips@, other.clips@);
        lemma_payloads_equal_laws(self.groups@, mid.groups@, other.groups@);
        lemma_payloads_equal_laws(self.draws@, mid.draws@, other.draws@);
        Self::lemma_masks_same_transitive(self.masks@, mid.masks@, other.masks@, self.masks@.len());
    }

    proof fn lemma_masks_same_transitive(
        a: Seq<Mask<C, G, D>>,
        b: Seq<Mask<C, G, D>>,
        c: Seq<Mask<C, G, D>>,
        n: nat,
    )
        requires
            vstd::laws_eq::obeys_concrete_eq::<C>(),
            vstd::laws_eq::obeys_concrete_eq::<G>(),
            vstd::laws_eq::obeys_concrete_eq::<D>(),
            n <= a.len(),
            n <= b.len(),
            n <= c.len(),
            Self::masks_same(a, b, n),
            Self::masks_same(b, c, n),
        ensures
            Self::masks_same(a, c, n),
        decreases a, n,
    {
        if n > 0 {
            Self::lemma_masks_same_transitive(a, b, c, (n - 1) as nat);
            assert(decreases_to!(a => a[n - 1]));
            a[n - 1].scene.lemma_same_as_transitive(b[n - 1].scene, c[n - 1].scene);
        }
    }
}

impl<C: PartialEq, G: PartialEq, D: PartialEq> Scene<C, G, D> {
    /// Scenes with the same commands, group masks, element-wise equal payload tables and mask
    /// definitions that are equal position by position are equal.
    pub proof fn lemma_same_as_from_parts(self, other: Self)
        requires
            self.commands_view() == other.commands_view(),
            payloads_equal(self.clips_view(), other.clips_view()),
            payloads_equal(self.groups_view(), other.groups_view()),
            payloads_equal(self.draws_view(), other.draws_view()),
            self.group_masks_view() == other.group_masks_view(),
            self.masks_view().len() == other.masks_view().len(),
            forall|k: int|
                0 <= k < self.masks_view().len() ==> #[trigger] masks_match(
                    self.masks_view()[k],
                    other.masks_view()[k],
                ),
        ensures
            self.same_as(other),
    {
        Self::lemma_masks_same_from_matches(self.masks@, other.masks@, self.masks@.len());
    }

    proof fn lemma_masks_same_from_matches(a: Seq<Mask<C, G, D>>, b: Seq<Mask<C, G, D>>, n: nat)
        requires
            n <= a.len(),
            n <= b.len(),
            forall|k: int| 0 <= k < n ==> #[trigger] masks_match(a[k], b[k]),
        ensures
            Self::masks_same(a, b, n),
        decreases n,
    {
        if n > 0 {
            Self::lemma_masks_same_from_matches(a, b, (n - 1) as nat);
            assert(masks_match(a[n - 1], b[n - 1]));
        }
    }
}

/// Law: defining the same mask twice files it once. When the payload types compare by plain
/// equality, the slot chosen for `mask` is unique, and after it is filed, defining `mask` again
/// chooses the same slot and leaves the table as it is.
pub proof fn law_define_mask_idempotent<C: PartialEq, G: PartialEq, D: PartialEq>(
    masks: Seq<Mask<C, G, D>>,
    mask: Mask<C, G, D>,
    slot: int,
    other: int,
)
    requires
        vstd::laws_eq::obeys_concrete_eq::<C>(),
        vstd::laws_eq::obeys_concrete_eq::<G>(),
        vstd::laws_eq::obeys_concrete_eq::<D>(),
        is_mask_slot(masks, mask, slot),
        is_mask_slot(masks, mask, other),
    ensures
        slot == other,
        ({
            let filed = if slot < masks.len() {
                masks
            } else {
                masks.push(mask)
            };
            &&& slot < filed.len()
            &&& is_mask_slot(filed, mask, slot)
        }),
{
    if slot < other {
        assert(!masks_match(masks[slot], mask));
    }
    if other < slot {
        assert(!masks_match(masks[other], mask));
    }
    if slot == masks.len() {
        let filed = masks.push(mask);
        mask.scene.lemma_same_as_reflexive();
        assert(masks_match(filed[slot], mask));
        assert forall|k: int| 0 <= k < slot implies !masks_match(#[trigger] filed[k], mask) by {
            assert(filed[k] == masks[k]);
        }
    }
}


/// Cloning a value of type `T` yields an equal value.
pub open spec fn clones_exactly<T: Clone>() -> bool {
    forall|a: T, b: T| #[trigger] cloned::<T>(a, b) ==> a == b
}

impl<C: PartialEq + Clone, G: PartialEq + Clone, D: PartialEq + Clone> Scene<C, G, D> {
    proof fn lemma_clone_same(self, src: Self)
        requires
            vstd::laws_eq::obeys_concrete_eq::<C>(),
            vstd::laws_eq::obeys_concrete_eq::<G>(),
            vstd::laws_eq::obeys_concrete_eq::<D>(),
            clones_exactly::<C>(),
            clones_exactly::<G>(),
            clones_exactly::<D>(),
            self.clone_of(src),
        ensures
            self.same_as(src),
        decreases self,
    {
        reveal(vstd::laws_eq::obeys_concrete_eq);
        assert forall|i: int| 0 <= i < self.clips@.len() implies #[trigger] self.clips@[i].eq_spec(
            &src.clips@[i],
        ) by {
            assert(cloned::<C>(src.clips@[i], self.clips@[i]));
        }
        assert forall|i: int| 0 <= i < self.groups@.len() implies #[trigger] self.groups@[i].eq_spec(
            &src.groups@[i],
        ) by {
            assert(cloned::<G>(src.groups@[i], self.groups@[i]));
        }
        assert forall|i: int| 0 <= i < self.draws@.len() implies #[trigger] self.draws@[i].eq_spec(
            &src.draws@[i],
        ) by {
            assert(cloned::<D>(src.draws@[i], self.draws@[i]));
        }
        Self::lemma_masks_cloned_same(self.masks@, src.masks@, self.masks@.len());
    }

    proof fn lemma_masks_cloned_same(copy: Seq<Mask<C, G, D>>, src: Seq<Mask<C, G, D>>, n: nat)
        requires
            vstd::laws_eq::obeys_concrete_eq::<C>(),
            vstd::laws_eq::obeys_concrete_eq::<G>(),
            vstd::laws_eq::obeys_concrete_eq::<D>(),
            clones_exactly::<C>(),
            clones_exactly::<G>(),
            clones_exactly::<D>(),
            n <= copy.len(),
            n <= src.len(),
            Self::masks_cloned(copy, src, n),
        ensures
            Self::masks_same(copy, src, n),
        decreases copy, n,
    {
        if n > 0 {
            Self::lemma_masks_cloned_same(copy, src, (n - 1) as nat);
            assert(decreases_to!(copy => copy[n - 1]));
            copy[n - 1].scene.lemma_clone_same(src[n - 1].scene);
        }
    }
}

/// Law: a recorded scene compares equal to itself, when its payload types compare by plain
/// equality.
pub proof fn law_scene_equals_itself<C: PartialEq, G: PartialEq, D: PartialEq>(scene: Scene<C, G, D>)
    requires
        vstd::laws_eq::obeys_concrete_eq::<C>(),
        vstd::laws_eq::obeys_concrete_eq::<G>(),
        vstd::laws_eq::obeys_concrete_eq::<D>(),
    ensures
        scene.same_as(scene),
{
    scene.lemma_same_as_reflexive();
}

/// Law: a clone of a scene compares equal to it, when its payload types compare by plain
/// equality and clone into equal values.
pub proof fn law_clone_equals_source<C: PartialEq + Clone, G: PartialEq + Clone, D: PartialEq + Clone>(
    src: Scene<C, G, D>,
    copy: Scene<C, G, D>,
)
    requires
        vstd::laws_eq::obeys_concrete_eq::<C>(),
        vstd::laws_eq::obeys_concrete_eq::<G>(),
        vstd::laws_eq::obeys_concrete_eq::<D>(),
        clones_exactly::<C>(),
        clones_exactly::<G>(),
        clones_exactly::<D>(),
        copy.clone_of(src),
    ensures
        copy.same_as(src),
{
    copy.lemma_clone_same(src);
}

} // verus!
