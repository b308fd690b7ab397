//! The short notices shown in the corner of the interface.

use vstd::prelude::*;

verus! {

/// How a notice is styled.
#[derive(Debug, Clone, Copy, PartialEq, Eq, Structural)]
pub enum ToastType {
    Success,
    Info,
    Warning,
    Error,
}

impl ToastType {
    /// The style class of the notice's icon.
    pub fn class(&self) -> (s: &'static str)
        ensures
            s@ == match self {
                ToastType::Success => "success"@,
                ToastType::Info => "info"@,
                ToastType::Warning => "warning"@,
                ToastType::Error => "error"@,
            },
    {
        match self {
            ToastType::Success => "success",
            ToastType::Info => "info",
            ToastType::Warning => "warning",
            ToastType::Error => "error",
        }
    }
}

/// One notice; it fades out (stops being visible) shortly before it is
/// taken down.
#[derive(Debug, Clone, PartialEq, Eq)]
pub struct ToastMessage {
    pub id: usize,
    pub text: String,
    pub toast_type: ToastType,
    pub visible: bool,
}

/// The style class of a notice: shown while visible, fading out after.
pub fn toast_class(visible: bool) -> (s: &'static str)
    ensures
        s@ == if visible {
            "toast visible"@
        } else {
            "toast hidden"@
        },
{
    if visible {
        "toast visible"
    } else {
        "toast hidden"
    }
}

/// The notices on screen, in the order they were raised, and the id the
/// next one gets.
#[derive(Debug)]
pub struct ToastQueue {
    next_id: usize,
    toasts: Vec<ToastMessage>,
}

impl ToastQueue {
    /// The id the next notice gets.
    pub closed spec fn next_id(self) -> usize {
        self.next_id
    }

    /// The ids of the notices on screen, in order.
    pub closed spec fn ids(self) -> Seq<usize> {
        self.toasts@.map_values(|t: ToastMessage| t.id)
    }

    /// The notices on screen, in order.
    pub closed spec fn messages(self) -> Seq<ToastMessage> {
        self.toasts@
    }

    /// No notice on screen; ids start at 0.
    pub fn new() -> (q: Self)
        ensures
            q.next_id() == 0,
            q.messages().len() == 0,
    {
        ToastQueue { next_id: 0, toasts: Vec::new() }
    }

    /// Raises a visible notice and returns its id: the counter's value, which
    /// then moves on by one, wrapping around at the top like an atomic
    /// counter.
    pub fn add_toast(&mut self, text: String, toast_type: ToastType) -> (id: usize)
        ensures
            id == old(self).next_id(),
            final(self).next_id() == (if old(self).next_id() == usize::MAX {
                0
            } else {
                (old(self).next_id() + 1) as usize
            }),
            final(self).messages() == old(self).messages().push(
                ToastMessage { id, text, toast_type, visible: true },
            ),
    {
        let id = self.next_id;
        self.next_id = if id == usize::MAX {
            0
        } else {
            id + 1
        };
        self.toasts.push(ToastMessage { id, text, toast_type, visible: true });
        id
    }

    /// The notices on screen, in order.
    pub fn toasts(&self) -> (r: &Vec<ToastMessage>)
        ensures
            r@ == self.messages(),
    {
        &self.toasts
    }

    /// Lets every notice with the given id fade out; nothing else changes.
    pub fn hide_toast(&mut self, id: usize)
        ensures
            final(self).next_id() == old(self).next_id(),
            final(self).messages().len() == old(self).messages().len(),
            forall|k: int|
                0 <= k < old(self).messages().len() ==> #[trigger] final(self).messages()[k] == if old(
                    self,
                ).messages()[k].id == id {
                    ToastMessage { visible: false, ..old(self).messages()[k] }
                } else {
                    old(self).messages()[k]
                },
    {
        let mut i: usize = 0;
        while i < self.toasts.len()
            invariant
                i <= self.toasts@.len(),
                self.next_id == old(self).next_id,
                self.toasts@.len() == old(self).toasts@.len(),
                forall|k: int|
                    0 <= k < self.toasts@.len() ==> #[trigger] self.toasts@[k] == if k < i
                        && old(self).toasts@[k].id == id {
                        ToastMessage { visible: false, ..old(self).toasts@[k] }
                    } else {
                        old(self).toasts@[k]
                    },
            decreases self.toasts@.len() - i,
        {
            if self.toasts[i].id == id {
                let mut t = self.toasts.remove(i);
                t.visible = false;
                self.toasts.insert(i, t);
            }
            i = i + 1;
        }
    }

    /// Takes down every notice with the given id.
    pub fn remove_toast(&mut self, id: usize)
        ensures
            final(self).next_id() == old(self).next_id(),
            final(self).messages() == old(self).messages().filter(|t: ToastMessage| t.id != id),
    {
        let ghost before = self.toasts@;
        let mut kept: Vec<ToastMessage> = Vec::new();
        let mut rest: Vec<ToastMessage> = Vec::new();
        std::mem::swap(&mut rest, &mut self.toasts);
        assert(before.len() == rest.len());
        let mut i: usize = 0;
        proof {
            reveal(Seq::filter);
            assert(before.take(0) =~= Seq::<ToastMessage>::empty());
            assert(before.skip(0) =~= before);
        }
        while rest.len() > 0
            invariant
                i + rest@.len() == before.len(),
                before.len() <= usize::MAX,
                rest@ == before.skip(i as int),
                kept@ == before.take(i as int).filter(|t: ToastMessage| t.id != id),
            decreases rest@.len(),
        {
            let t = rest.remove(0);
            assert(t == before[i as int]);
            assert(rest@ =~= before.skip(i + 1));
            assert(before.take(i + 1) =~= before.take(i as int).push(t));
            proof {
                before.take(i as int).lemma_filter_push(t, |t: ToastMessage| t.id != id);
            }
            if t.id != id {
                kept.push(t);
            }
            i = i + 1;
        }
        assert(before.take(i as int) =~= before);
        self.toasts = kept;
    }
}

/// Raising a notice and then taking it down leaves the notices on screen as
/// they were, as long as every earlier id is below the counter and the
/// counter has not wrapped around.
pub proof fn lemma_add_then_remove(before: Seq<ToastMessage>, next_id: usize, m: ToastMessage)
    requires
        forall|k: int| 0 <= k < before.len() ==> (#[trigger] before[k]).id < next_id,
        m.id == next_id,
    ensures
        before.push(m).filter(|t: ToastMessage| t.id != m.id) == before,
{
    before.lemma_filter_push(m, |t: ToastMessage| t.id != m.id);
    lemma_filter_keeps_all(before, m.id);
}

proof fn lemma_filter_keeps_all(s: Seq<ToastMessage>, id: usize)
    requires
        forall|k: int| 0 <= k < s.len() ==> (#[trigger] s[k]).id < id,
    ensures
        s.filter(|t: ToastMessage| t.id != id) == s,
    decreases s.len(),
{
    reveal(Seq::filter);
    if s.len() > 0 {
        let t = s.drop_last();
        assert forall|k: int| 0 <= k < t.len() implies (#[trigger] t[k]).id < id by {
            assert(t[k] == s[k]);
        }
        lemma_filter_keeps_all(t, id);
        assert(t.push(s.last()) =~= s);
    } else {
        assert(s.filter(|t: ToastMessage| t.id != id) =~= s);
    }
}

/// The notice raised when a third dump is picked for diffing.
pub fn selection_full_notice() -> (n: (&'static str, ToastType))
    ensures
        n.0@ == "You can only select up to 2 payloads to diff."@,
        n.1 == ToastType::Warning,
{
    ("You can only select up to 2 payloads to diff.", ToastType::Warning)
}

/// The notice raised after deleting a dump: success only when exactly one
/// dump went away.
pub fn deletion_notice(deleted_one: bool) -> (n: (&'static str, ToastType))
    ensures
        n.0@ == if deleted_one {
            "Dump was deleted"@
        } else {
            "Dump not deleted"@
        },
        n.1 == if deleted_one {
            ToastType::Success
        } else {
            ToastType::Error
        },
{
    if deleted_one {
        ("Dump was deleted", ToastType::Success)
    } else {
        ("Dump not deleted", ToastType::Error)
    }
}

} // verus!
