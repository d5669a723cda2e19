//! The back/forward history of the documents the viewer has shown, each with
//! the scroll offset it was left at (of a type the caller chooses) and
//! whether it is shown as plain text.

use vstd::prelude::*;

verus! {

struct NavigationEntry<S> {
    path: String,
    scroll_offset: S,
    is_plain_text: bool,
}

/// The mathematical value of one visited document.
pub struct EntryV<S> {
    pub path: Seq<char>,
    pub scroll: S,
    pub plain: bool,
}

/// The mathematical value of a history: the documents behind the current
/// one (the most recent last), the current one, and the documents ahead of
/// it (the next one last).
pub struct HistoryV<S> {
    pub back: Seq<EntryV<S>>,
    pub current: EntryV<S>,
    pub forward: Seq<EntryV<S>>,
}

/// Back/forward navigation over visited documents.
pub struct NavigationHistory<S> {
    back_stack: Vec<NavigationEntry<S>>,
    forward_stack: Vec<NavigationEntry<S>>,
    current: NavigationEntry<S>,
}

pub open spec fn entry<S>(path: Seq<char>, scroll: S, plain: bool) -> EntryV<S> {
    EntryV { path, scroll, plain }
}

spec fn entry_view<S>(e: NavigationEntry<S>) -> EntryV<S> {
    EntryV { path: e.path@, scroll: e.scroll_offset, plain: e.is_plain_text }
}

spec fn entries_view<S>(v: Seq<NavigationEntry<S>>) -> Seq<EntryV<S>> {
    Seq::new(v.len(), |k: int| entry_view(v[k]))
}

/// The history after visiting `e`: the current document goes behind, `e`
/// becomes current, and nothing is ahead any more.
pub open spec fn visit<S>(h: HistoryV<S>, e: EntryV<S>) -> HistoryV<S> {
    HistoryV { back: h.back.push(h.current), current: e, forward: Seq::empty() }
}

/// The history after one step back (when something is behind): the most
/// recent document behind becomes current, the current one goes ahead.
pub open spec fn step_back<S>(h: HistoryV<S>) -> HistoryV<S> {
    HistoryV { back: h.back.drop_last(), current: h.back.last(), forward: h.forward.push(h.current) }
}

/// The history after one step forward (when something is ahead).
pub open spec fn step_forward<S>(h: HistoryV<S>) -> HistoryV<S> {
    HistoryV { back: h.back.push(h.current), current: h.forward.last(), forward: h.forward.drop_last() }
}

impl<S> View for NavigationHistory<S> {
    type V = HistoryV<S>;

    closed spec fn view(&self) -> HistoryV<S> {
        HistoryV {
            back: entries_view(self.back_stack@),
            current: entry_view(self.current),
            forward: entries_view(self.forward_stack@),
        }
    }
}

impl<S: Copy> NavigationHistory<S> {
    /// A history holding only `initial`, scrolled to `origin`.
    pub fn new(initial: String, is_plain_text: bool, origin: S) -> (h: Self)
        ensures
            h@ == (HistoryV {
                back: Seq::empty(),
                current: entry(initial@, origin, is_plain_text),
                forward: Seq::empty(),
            }),
    {
        let h = NavigationHistory {
            back_stack: Vec::new(),
            forward_stack: Vec::new(),
            current: NavigationEntry { path: initial, scroll_offset: origin, is_plain_text },
        };
        assert(entries_view(h.back_stack@) =~= Seq::empty());
        assert(entries_view(h.forward_stack@) =~= Seq::empty());
        h
    }

    /// The path of the current document.
    pub fn current(&self) -> (p: &String)
        ensures
            p@ == self@.current.path,
    {
        &self.current.path
    }

    /// The scroll offset of the current document.
    pub fn current_scroll_offset(&self) -> (s: S)
        ensures
            s == self@.current.scroll,
    {
        self.current.scroll_offset
    }

    /// Record where the current document is scrolled to.
    pub fn update_current_scroll_offset(&mut self, scroll_offset: S)
        ensures
            final(self)@ == (HistoryV {
                current: entry(old(self)@.current.path, scroll_offset, old(self)@.current.plain),
                ..old(self)@
            }),
    {
        self.current.scroll_offset = scroll_offset;
    }

    /// Whether the current document is shown as plain text.
    pub fn current_is_plain_text(&self) -> (b: bool)
        ensures
            b == self@.current.plain,
    {
        self.current.is_plain_text
    }

    /// Visit another document: the current one goes on the back stack and
    /// the forward stack is cleared.
    pub fn navigate_to(&mut self, path: String, scroll_offset: S, is_plain_text: bool)
        ensures
            final(self)@ == visit(old(self)@, entry(path@, scroll_offset, is_plain_text)),
    {
        let ghost h = self@;
        let mut e = NavigationEntry { path, scroll_offset, is_plain_text };
        std::mem::swap(&mut e, &mut self.current);
        self.back_stack.push(e);
        self.forward_stack.clear();
        assert(entries_view(self.back_stack@) =~= h.back.push(h.current));
        assert(entries_view(self.forward_stack@) =~= Seq::empty());
    }

    /// Go back one document, if there is one behind; returns the new current
    /// document's path, scroll offset and plain-text flag.
    pub fn go_back(&mut self) -> (r: Option<(&String, S, bool)>)
        ensures
            old(self)@.back.len() == 0 ==> r is None && final(self)@ == old(self)@,
            old(self)@.back.len() > 0 ==> final(self)@ == step_back(old(self)@),
            old(self)@.back.len() > 0 ==> (r matches Some(t) && t.0@ == final(self)@.current.path
                && t.1 == final(self)@.current.scroll && t.2 == final(self)@.current.plain),
    {
        let ghost h = self@;
        match self.back_stack.pop() {
            Some(prev) => {
                let mut prev = prev;
                std::mem::swap(&mut prev, &mut self.current);
                self.forward_stack.push(prev);
                assert(entries_view(self.back_stack@) =~= h.back.drop_last());
                assert(entries_view(self.forward_stack@) =~= h.forward.push(h.current));
                Some((&self.current.path, self.current.scroll_offset, self.current.is_plain_text))
            },
            None => None,
        }
    }

    /// Go forward one document, if there is one ahead; returns the new
    /// current document's path, scroll offset and plain-text flag.
    pub fn go_forward(&mut self) -> (r: Option<(&String, S, bool)>)
        ensures
            old(self)@.forward.len() == 0 ==> r is None && final(self)@ == old(self)@,
            old(self)@.forward.len() > 0 ==> final(self)@ == step_forward(old(self)@),
            old(self)@.forward.len() > 0 ==> (r matches Some(t) && t.0@ == final(self)@.current.path
                && t.1 == final(self)@.current.scroll && t.2 == final(self)@.current.plain),
    {
        let ghost h = self@;
        match self.forward_stack.pop() {
            Some(next) => {
                let mut next = next;
                std::mem::swap(&mut next, &mut self.current);
                self.back_stack.push(next);
                assert(entries_view(self.forward_stack@) =~= h.forward.drop_last());
                assert(entries_view(self.back_stack@) =~= h.back.push(h.current));
                Some((&self.current.path, self.current.scroll_offset, self.current.is_plain_text))
            },
            None => None,
        }
    }

    /// Whether there is a document behind the current one.
    pub fn can_go_back(&self) -> (b: bool)
        ensures
            b == (self@.back.len() > 0),
    {
        self.back_stack.len() > 0
    }

    /// Whether there is a document ahead of the current one.
    pub fn can_go_forward(&self) -> (b: bool)
        ensures
            b == (self@.forward.len() > 0),
    {
        self.forward_stack.len() > 0
    }
}

/// Going back right after visiting a document returns to the document that
/// was current before, scrolled where it was left, with the visited one
/// ahead and nothing else ahead.
pub proof fn lemma_back_after_visit<S>(h: HistoryV<S>, e: EntryV<S>)
    ensures
        step_back(visit(h, e)).current == h.current,
        step_back(visit(h, e)).back == h.back,
        step_back(visit(h, e)).forward == seq![e],
{
    assert(h.back.push(h.current).drop_last() =~= h.back);
    assert(Seq::<EntryV<S>>::empty().push(e) =~= seq![e]);
}

/// A step forward undoes a step back, and a step back undoes a step
/// forward.
pub proof fn lemma_back_forward_round_trip<S>(h: HistoryV<S>)
    ensures
        h.back.len() > 0 ==> step_forward(step_back(h)) == h,
        h.forward.len() > 0 ==> step_back(step_forward(h)) == h,
{
    if h.back.len() > 0 {
        assert(h.back.drop_last().push(h.back.last()) =~= h.back);
        assert(h.forward.push(h.current).drop_last() =~= h.forward);
    }
    if h.forward.len() > 0 {
        assert(h.forward.drop_last().push(h.forward.last()) =~= h.forward);
        assert(h.back.push(h.current).drop_last() =~= h.back);
    }
}

/// Visiting a document leaves nothing to go forward to and something to go
/// back to.
pub proof fn lemma_visit_clears_forward<S>(h: HistoryV<S>, e: EntryV<S>)
    ensures
        visit(h, e).forward.len() == 0,
        visit(h, e).back.len() == h.back.len() + 1,
        visit(h, e).current == e,
{
}

/// Stepping back or forward neither loses nor adds documents: the number
/// behind plus the number ahead stays the same.
pub proof fn lemma_steps_keep_documents<S>(h: HistoryV<S>)
    ensures
        h.back.len() > 0 ==> step_back(h).back.len() + step_back(h).forward.len() == h.back.len()
            + h.forward.len(),
        h.forward.len() > 0 ==> step_forward(h).back.len() + step_forward(h).forward.len()
            == h.back.len() + h.forward.len(),
{
}

} // verus!
