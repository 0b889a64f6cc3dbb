//! Scope stacks: the changes the parser reports for a line, how they change a
//! stack of scopes, and which parts of a line lie inside a comment scope.

use syntect::parsing::Scope;
use vstd::prelude::*;
use crate::text::chars_of;

verus! {

/// A change to a scope stack, as the parser reports it at a byte of a line:
/// push a scope (with its name), pop some, clear the top ones or all of them
/// (keeping them aside), put the last cleared ones back, or nothing.
#[derive(Debug)]
pub enum StackOp {
    Push(Scope, String),
    Pop(usize),
    ClearTop(usize),
    ClearAll,
    Restore,
    Noop,
}

/// A change to a scope stack as values, a pushed scope given by its name.
pub enum OpView {
    Push(Seq<char>),
    Pop(usize),
    ClearTop(usize),
    ClearAll,
    Restore,
    Noop,
}

impl View for StackOp {
    type V = OpView;

    open spec fn view(&self) -> OpView {
        match self {
            StackOp::Push(_, name) => OpView::Push(name@),
            StackOp::Pop(n) => OpView::Pop(*n),
            StackOp::ClearTop(n) => OpView::ClearTop(*n),
            StackOp::ClearAll => OpView::ClearAll,
            StackOp::Restore => OpView::Restore,
            StackOp::Noop => OpView::Noop,
        }
    }
}

/// The changes `ops` with their positions, as values.
pub open spec fn op_views(ops: Seq<(usize, StackOp)>) -> Seq<(usize, OpView)> {
    Seq::new(ops.len(), |i: int| (ops[i].0, ops[i].1@))
}

/// The scope named `name` lies under the scope named `prefix`: it is that
/// scope, or one below it, whose name goes on after a `.` (`comment.line`
/// lies under `comment`).
pub open spec fn scope_under(prefix: Seq<char>, name: Seq<char>) -> bool {
    ||| name == prefix
    ||| name.len() > prefix.len() && name.take(prefix.len() as int) == prefix && name[prefix.len() as int] == '.'
}

/// Whether the scope named `name` lies under the scope named `prefix`.
pub fn is_scope_under(prefix: &str, name: &str) -> (b: bool)
    ensures
        b == scope_under(prefix@, name@),
{
    let p = chars_of(prefix);
    let n = chars_of(name);
    if n.len() < p.len() {
        return false;
    }
    let mut i: usize = 0;
    while i < p.len()
        invariant
            i <= p@.len(),
            p@ == prefix@,
            n@ == name@,
            p@.len() <= n@.len(),
            forall|k: int| 0 <= k < i ==> n@[k] == p@[k],
        decreases p.len() - i,
    {
        if n[i] != p[i] {
            assert(n@.take(p@.len() as int)[i as int] != p@[i as int]);
            assert(n@.take(p@.len() as int) != p@);
            assert(n@[i as int] != p@[i as int]);
            assert(n@ != p@);
            assert(!scope_under(prefix@, name@));
            return false;
        }
        i = i + 1;
    }
    assert(n@.take(p@.len() as int) =~= p@);
    if n.len() == p.len() {
        assert(n@ =~= p@);
        true
    } else {
        n[p.len()] == '.'
    }
}

/// A scope stack as values: the names of the scopes on it, bottom first, and
/// the groups of scopes cleared from it and kept aside, the latest last.
pub struct StackView {
    pub scopes: Seq<Seq<char>>,
    pub cleared: Seq<Seq<Seq<char>>>,
}

/// The stack with no scopes and nothing cleared.
pub open spec fn empty_stack() -> StackView {
    StackView { scopes: Seq::empty(), cleared: Seq::empty() }
}

/// How many scopes stay when `n` are taken off a stack of `len`.
pub open spec fn kept_after(len: nat, n: usize) -> int {
    if n >= len {
        0
    } else {
        len - n
    }
}

/// The stack `st` after the change `op`, as `ScopeStack::apply` makes it:
/// `None` for a restore with nothing cleared, which it refuses.
pub open spec fn apply_spec(st: StackView, op: OpView) -> Option<StackView> {
    match op {
        OpView::Push(s) => Some(StackView { scopes: st.scopes.push(s), cleared: st.cleared }),
        OpView::Pop(n) => Some(
            StackView { scopes: st.scopes.take(kept_after(st.scopes.len(), n)), cleared: st.cleared },
        ),
        OpView::ClearTop(n) => {
            let k = kept_after(st.scopes.len(), n);
            Some(StackView { scopes: st.scopes.take(k), cleared: st.cleared.push(st.scopes.skip(k)) })
        },
        OpView::ClearAll => Some(
            StackView { scopes: Seq::empty(), cleared: st.cleared.push(st.scopes) },
        ),
        OpView::Restore => if st.cleared.len() > 0 {
            Some(
                StackView {
                    scopes: st.scopes + st.cleared.last(),
                    cleared: st.cleared.drop_last(),
                },
            )
        } else {
            None
        },
        OpView::Noop => Some(st),
    }
}

/// Some scope of `scopes` lies under the scope named `comment`.
pub open spec fn in_comment(scopes: Seq<Seq<char>>, comment: Seq<char>) -> bool {
    exists|i: int| 0 <= i < scopes.len() && scope_under(comment, #[trigger] scopes[i])
}

/// The stack `st` after the changes `ops` of a line, in order; `None` when
/// one of them is refused.
pub open spec fn scan_stack(st: StackView, ops: Seq<(usize, OpView)>) -> Option<StackView>
    decreases ops.len(),
{
    if ops.len() == 0 {
        Some(st)
    } else {
        match scan_stack(st, ops.drop_last()) {
            Some(s) => apply_spec(s, ops.last().1),
            None => None,
        }
    }
}

/// Whether the stack, started at `st`, holds a comment scope just before each
/// change of `ops`.
pub open spec fn flags_before(st: StackView, ops: Seq<(usize, OpView)>, comment: Seq<char>) -> Seq<
    bool,
>
    decreases ops.len(),
{
    if ops.len() == 0 {
        seq![]
    } else {
        flags_before(st, ops.drop_last(), comment).push(
            match scan_stack(st, ops.drop_last()) {
                Some(s) => in_comment(s.scopes, comment),
                None => false,
            },
        )
    }
}

/// The comment flag of each segment of a line whose scope changes are `ops`,
/// from the stack `st`: one for the segment before each change, and one for
/// the segment after the last.
pub open spec fn segment_flags(st: StackView, ops: Seq<(usize, OpView)>, comment: Seq<char>) -> Seq<
    bool,
> {
    flags_before(st, ops, comment).push(
        match scan_stack(st, ops) {
            Some(s) => in_comment(s.scopes, comment),
            None => false,
        },
    )
}

pub proof fn lemma_flags_before_len(st: StackView, ops: Seq<(usize, OpView)>, comment: Seq<char>)
    ensures
        flags_before(st, ops, comment).len() == ops.len(),
    decreases ops.len(),
{
    if ops.len() > 0 {
        lemma_flags_before_len(st, ops.drop_last(), comment);
    }
}

/// A stack of scope names, with the groups of cleared ones kept aside.
pub struct ScopeStackModel {
    pub scopes: Vec<String>,
    pub cleared: Vec<Vec<String>>,
}

/// The names in `v`, as values.
pub open spec fn names_view(v: Seq<String>) -> Seq<Seq<char>> {
    Seq::new(v.len(), |i: int| v[i]@)
}

impl View for ScopeStackModel {
    type V = StackView;

    open spec fn view(&self) -> StackView {
        StackView {
            scopes: names_view(self.scopes@),
            cleared: Seq::new(self.cleared@.len(), |i: int| names_view(self.cleared@[i]@)),
        }
    }
}

impl ScopeStackModel {
    /// A stack with no scopes and nothing cleared.
    pub fn new() -> (s: Self)
        ensures
            s@ == empty_stack(),
    {
        let s = ScopeStackModel { scopes: Vec::new(), cleared: Vec::new() };
        assert(s@.scopes =~= Seq::<Seq<char>>::empty());
        assert(s@.cleared =~= Seq::<Seq<Seq<char>>>::empty());
        s
    }

    /// Applies the change `op` as `ScopeStack::apply` does, and answers
    /// whether it could; a restore with nothing cleared changes nothing.
    pub fn apply(&mut self, op: &StackOp) -> (ok: bool)
        ensures
            match apply_spec(old(self)@, op@) {
                Some(st) => ok && final(self)@ == st,
                None => !ok && final(self)@ == old(self)@,
            },
    {
        let ghost before = self@;
        let ghost sv = self.scopes@;
        match op {
            StackOp::Push(_, name) => {
                self.scopes.push(name.clone());
                assert(self@.scopes =~= before.scopes.push(name@));
            },
            StackOp::Pop(n) => {
                let len = self.scopes.len();
                let keep = if *n >= len {
                    0
                } else {
                    len - *n
                };
                self.scopes.truncate(keep);
                assert(self@.scopes =~= before.scopes.take(keep as int));
            },
            StackOp::ClearTop(n) => {
                let len = self.scopes.len();
                let keep = if *n >= len {
                    0
                } else {
                    len - *n
                };
                let top = self.scopes.split_off(keep);
                assert(names_view(top@) =~= before.scopes.skip(keep as int));
                self.cleared.push(top);
                assert(self@.scopes =~= before.scopes.take(keep as int));
                assert(self@.cleared =~= before.cleared.push(before.scopes.skip(keep as int)));
            },
            StackOp::ClearAll => {
                let mut all: Vec<String> = Vec::new();
                std::mem::swap(&mut all, &mut self.scopes);
                self.cleared.push(all);
                assert(self@.scopes =~= Seq::<Seq<char>>::empty());
                assert(self@.cleared =~= before.cleared.push(before.scopes));
            },
            StackOp::Restore => {
                match self.cleared.pop() {
                    Some(mut top) => {
                        let ghost tv = top@;
                        self.scopes.append(&mut top);
                        assert(names_view(sv + tv) =~= names_view(sv) + names_view(tv));
                        assert(self@.scopes =~= before.scopes + before.cleared.last());
                        assert(self@.cleared =~= before.cleared.drop_last());
                    },
                    None => {
                        return false;
                    },
                }
            },
            StackOp::Noop => {},
        }
        true
    }
}

/// Whether some scope on `stack` lies under the scope named `comment`.
fn is_comment_scope(stack: &ScopeStackModel, comment: &str) -> (b: bool)
    ensures
        b == in_comment(stack@.scopes, comment@),
{
    let mut i: usize = 0;
    while i < stack.scopes.len()
        invariant
            i <= stack.scopes@.len(),
            forall|k: int| 0 <= k < i ==> !scope_under(comment@, #[trigger] stack@.scopes[k]),
        decreases stack.scopes@.len() - i,
    {
        if is_scope_under(comment, stack.scopes[i].as_str()) {
            assert(scope_under(comment@, stack@.scopes[i as int]));
            return true;
        }
        i = i + 1;
    }
    false
}

/// Reads the scope changes `ops` of a line, carrying `stack` through them:
/// gives the comment flag of each segment of the line (before each change,
/// and after the last), and leaves the stack as the changes make it. Gives
/// `None` when a change is refused (a restore with nothing cleared).
pub fn scan_line_scopes(stack: &mut ScopeStackModel, ops: &Vec<(usize, StackOp)>, comment: &str) -> (flags: Option<
    Vec<bool>,
>)
    ensures
        match scan_stack(old(stack)@, op_views(ops@)) {
            Some(st) => flags matches Some(f) && f@ == segment_flags(old(stack)@, op_views(ops@), comment@)
                && final(stack)@ == st,
            None => flags is None,
        },
{
    let ghost st0 = stack@;
    let ghost views = op_views(ops@);
    let mut flags: Vec<bool> = Vec::new();
    let mut j: usize = 0;
    while j < ops.len()
        invariant
            j <= ops@.len(),
            st0 == old(stack)@,
            views == op_views(ops@),
            scan_stack(st0, views.take(j as int)) == Some(stack@),
            flags@ == flags_before(st0, views.take(j as int), comment@),
        decreases ops.len() - j,
    {
        assert(views.take(j + 1).drop_last() =~= views.take(j as int));
        assert(views.take(j + 1).last() == views[j as int]);
        flags.push(is_comment_scope(stack, comment));
        let ghost s_before = stack@;
        if !stack.apply(&ops[j].1) {
            assert(apply_spec(s_before, views[j as int].1) is None);
            assert(scan_stack(st0, views.take(j + 1)) is None);
            proof {
                lemma_scan_stops(st0, views, j + 1);
            }
            return None;
        }
        j = j + 1;
    }
    assert(views.take(ops.len() as int) =~= views);
    flags.push(is_comment_scope(stack, comment));
    Some(flags)
}

/// Once a change is refused, the scan of every longer run of changes is
/// refused too.
proof fn lemma_scan_stops(st: StackView, ops: Seq<(usize, OpView)>, j: int)
    requires
        0 <= j <= ops.len(),
        scan_stack(st, ops.take(j)) is None,
    ensures
        scan_stack(st, ops) is None,
    decreases ops.len() - j,
{
    if j < ops.len() {
        assert(ops.take(j + 1).drop_last() =~= ops.take(j));
        lemma_scan_stops(st, ops, j + 1);
    } else {
        assert(ops.take(j) =~= ops);
    }
}

} // verus!
