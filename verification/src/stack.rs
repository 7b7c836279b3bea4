use vstd::prelude::*;
use crate::object::Object;
use crate::assoc::{assoc_map, keys_unique, assoc_find, assoc_insert, assoc_get, lemma_assoc_map_domain, lemma_assoc_map_value};
use crate::objsys::{
    ObjSys, RefKey, SweepReport, key_seq, mark_all, sweep, clearmark, keep, marks_grow, new_marks_closed,
    reachable, same_object, instance_ids, list_ids, file_ids, lemma_marks_grow_facts, lemma_marks_grow_trans,
    lemma_new_marks_closed_trans, lemma_unmarked_closed, new_marks_reachable, key_set,
    lemma_new_marks_reachable_trans, lemma_mark_keeps_closed, lemma_reachable_grow,
    lemma_reachable_marked, lemma_sweep_keeps, lemma_clear_keeps, lemma_same_object_trans, lemma_marks_grow_same,
    lemma_keep_split, lemma_first_index,
};
use crate::heapobjs::{Instance, InternalList, InternalFile};

verus! {

broadcast use vstd::std_specs::vec::group_vec_axioms;

/// A lexical frame: the variables declared in one scope.
pub type LexFrame = Vec<(String, Object)>;

/// The state of a stack: for each call, from the outermost, its lexical
/// frames from the outermost, each a map from names to values; the number of
/// calls; and the number of lexical frames of the current call.
pub struct StackModel {
    pub frames: Seq<Seq<Map<Seq<char>, Object>>>,
    pub call_level: nat,
    pub lex_level: nat,
}

/// The value of `k` in the innermost of the first `ll` frames of `fs` that
/// holds it.
pub open spec fn lookup(fs: Seq<Map<Seq<char>, Object>>, ll: int, k: Seq<char>) -> Option<Object>
    decreases ll,
{
    if ll <= 0 || ll > fs.len() {
        None
    } else if fs[ll - 1].contains_key(k) {
        Some(fs[ll - 1][k])
    } else {
        lookup(fs, ll - 1, k)
    }
}

/// The index of the innermost of the first `ll` frames of `fs` that holds `k`,
/// or -1.
pub open spec fn find_level(fs: Seq<Map<Seq<char>, Object>>, ll: int, k: Seq<char>) -> int
    decreases ll,
{
    if ll <= 0 || ll > fs.len() {
        -1
    } else if fs[ll - 1].contains_key(k) {
        ll - 1
    } else {
        find_level(fs, ll - 1, k)
    }
}

/// The lexical frames of the current call.
pub open spec fn top(m: StackModel) -> Seq<Map<Seq<char>, Object>> {
    m.frames.last()
}

/// The value that a name has in the current call.
pub open spec fn visible(m: StackModel, k: Seq<char>) -> Option<Object> {
    lookup(top(m), m.lex_level as int, k)
}

pub open spec fn push_call_model(m: StackModel) -> StackModel {
    StackModel { frames: m.frames.push(seq![Map::empty()]), call_level: m.call_level + 1, lex_level: 1 }
}

pub open spec fn pop_call_model(m: StackModel) -> StackModel {
    if m.call_level > 0 {
        let fs = m.frames.drop_last();
        StackModel {
            frames: fs,
            call_level: (m.call_level - 1) as nat,
            lex_level: if fs.len() > 0 { fs.last().len() } else { m.lex_level },
        }
    } else {
        m
    }
}

pub open spec fn set_top(m: StackModel, t: Seq<Map<Seq<char>, Object>>) -> StackModel {
    StackModel { frames: m.frames.update(m.frames.len() - 1, t), ..m }
}

pub open spec fn push_lex_model(m: StackModel) -> StackModel {
    StackModel { lex_level: m.lex_level + 1, ..set_top(m, top(m).push(Map::empty())) }
}

pub open spec fn pop_lex_model(m: StackModel) -> StackModel {
    StackModel { lex_level: (m.lex_level - 1) as nat, ..set_top(m, top(m).drop_last()) }
}

/// The call and scope levels of a model agree with its frames, as they do
/// for every well-formed stack.
pub open spec fn levels_agree(m: StackModel) -> bool {
    &&& m.call_level == m.frames.len()
    &&& m.frames.len() > 0 ==> m.lex_level == m.frames.last().len()
}

/// Leaving a call that was just entered gives back the stack as it was,
/// once some call is running.
pub proof fn lemma_push_pop_call(m: StackModel)
    requires
        levels_agree(m),
        m.frames.len() > 0,
    ensures
        pop_call_model(push_call_model(m)) == m,
{
    assert(push_call_model(m).frames.drop_last() =~= m.frames);
}

/// Closing a scope that was just opened gives back the stack as it was.
pub proof fn lemma_push_pop_lex(m: StackModel)
    requires
        m.frames.len() > 0,
    ensures
        pop_lex_model(push_lex_model(m)) == m,
{
    let t = top(m);
    assert(top(push_lex_model(m)) =~= t.push(Map::empty()));
    assert(top(push_lex_model(m)).drop_last() =~= t);
    assert(pop_lex_model(push_lex_model(m)).frames =~= m.frames);
}

pub open spec fn add_new_model(m: StackModel, k: Seq<char>, v: Object) -> StackModel {
    let t = top(m);
    set_top(m, t.update(t.len() - 1, t.last().insert(k, v)))
}

pub open spec fn update_model(m: StackModel, k: Seq<char>, v: Object) -> StackModel {
    let t = top(m);
    let lvl = find_level(t, m.lex_level as int, k);
    if lvl >= 0 {
        set_top(m, t.update(lvl, t[lvl].insert(k, v)))
    } else {
        m
    }
}

/// Whether a stack state can be worked on: there is a current call.
pub open spec fn in_call(m: StackModel) -> bool {
    m.frames.len() > 0 && m.lex_level == top(m).len()
}

/// Two-level storage of variables. The first level is the call stack, pushed
/// and popped around function calls: lookups do not cross calls. The second
/// level is the lexical scopes of the current call, pushed and popped around
/// blocks: lookups go from the innermost scope outwards.
pub struct Stack {
    stack: Vec<Vec<LexFrame>>,
    call_level: usize,
    lex_level: usize,
}

impl Stack {
    pub closed spec fn model(&self) -> StackModel {
        StackModel {
            frames: Seq::new(self.stack@.len(), |i: int| Seq::new(self.stack@[i]@.len(), |j: int| assoc_map(self.stack@[i]@[j]@))),
            call_level: self.call_level as nat,
            lex_level: self.lex_level as nat,
        }
    }

    /// The stack's representation is sound: its call level counts its calls,
    /// its lexical level counts the frames of the current call, and no name is
    /// declared twice in a frame.
    pub closed spec fn wf(&self) -> bool {
        &&& self.call_level == self.stack@.len()
        &&& self.stack@.len() > 0 ==> self.lex_level == self.stack@.last()@.len()
        &&& forall|i: int, j: int| 0 <= i < self.stack@.len() && 0 <= j < self.stack@[i]@.len() ==> keys_unique(#[trigger] self.stack@[i]@[j]@)
    }

    pub fn new() -> (r: Stack)
        ensures
            r.wf(),
            r.model().frames.len() == 0,
            r.model().call_level == 0,
            r.model().lex_level == 0,
    {
        let r = Stack { stack: Vec::new(), call_level: 0, lex_level: 0 };
        assert(r.model().frames =~= seq![]);
        r
    }

    /// Whether there is a current call with a lexical frame to declare
    /// names in.
    pub fn ready(&self) -> (r: bool)
        requires
            self.wf(),
        ensures
            r == (self.model().frames.len() > 0 && self.model().lex_level > 0),
    {
        self.stack.len() > 0 && self.lex_level > 0
    }

    pub fn call_level(&self) -> (r: usize)
        ensures
            r == self.model().call_level,
    {
        self.call_level
    }

    pub fn lex_level(&self) -> (r: usize)
        ensures
            r == self.model().lex_level,
    {
        self.lex_level
    }

    /// The entries of lexical frame `ll` (from 1) of call `cl` (from 1).
    pub fn lexframe(&self, cl: usize, ll: usize) -> (r: &LexFrame)
        requires
            self.wf(),
            1 <= cl <= self.model().frames.len(),
            1 <= ll <= self.model().frames[cl - 1].len(),
        ensures
            assoc_map(r@) == self.model().frames[cl - 1][ll - 1],
            keys_unique(r@),
    {
        &self.stack[cl - 1][ll - 1]
    }

    /// Adds a call with one empty lexical frame.
    pub fn push_call(&mut self)
        requires
            old(self).wf(),
            old(self).model().call_level < usize::MAX,
        ensures
            final(self).wf(),
            final(self).model() == push_call_model(old(self).model()),
    {
        let ghost m = self.model();
        let mut lexstack: Vec<LexFrame> = Vec::new();
        lexstack.push(Vec::new());
        self.stack.push(lexstack);
        self.call_level += 1;
        self.lex_level = 1;
        proof {
            let n = self.model();
            let p = push_call_model(m);
            assert(n.frames[n.frames.len() - 1] =~= seq![Map::empty()]);
            assert forall|i: int| 0 <= i < n.frames.len() - 1 implies n.frames[i] =~= p.frames[i] by {}
            assert(n.frames =~= p.frames);
        }
    }

    /// Removes the current call, if there is one.
    pub fn pop_call(&mut self)
        requires
            old(self).wf(),
        ensures
            final(self).wf(),
            final(self).model() == pop_call_model(old(self).model()),
    {
        let ghost m = self.model();
        if self.call_level > 0 {
            self.stack.pop();
            self.call_level -= 1;
            if self.stack.len() > 0 {
                self.lex_level = self.stack[self.stack.len() - 1].len();
            }
            proof {
                let n = self.model();
                let p = pop_call_model(m);
                assert forall|i: int| 0 <= i < n.frames.len() implies n.frames[i] =~= p.frames[i] by {}
                assert(n.frames =~= p.frames);
            }
        }
    }

    /// Adds an empty lexical frame to the current call.
    pub fn push_lex(&mut self)
        requires
            old(self).wf(),
            old(self).model().frames.len() > 0,
            old(self).model().lex_level < usize::MAX,
        ensures
            final(self).wf(),
            final(self).model() == push_lex_model(old(self).model()),
    {
        let ghost m = self.model();
        let last = self.stack.len() - 1;
        let mut callframe = self.stack.pop().unwrap();
        callframe.push(Vec::new());
        self.stack.push(callframe);
        self.lex_level += 1;
        proof {
            let n = self.model();
            let p = push_lex_model(m);
            assert(n.frames[last as int] =~= p.frames[last as int]);
            assert forall|i: int| 0 <= i < n.frames.len() implies n.frames[i] =~= p.frames[i] by {}
            assert(n.frames =~= p.frames);
        }
    }

    /// Removes the innermost lexical frame of the current call, which must
    /// not be its only one.
    pub fn pop_lex(&mut self)
        requires
            old(self).wf(),
            old(self).model().frames.len() > 0,
            old(self).model().lex_level > 1,
        ensures
            final(self).wf(),
            final(self).model() == pop_lex_model(old(self).model()),
    {
        let ghost m = self.model();
        let last = self.stack.len() - 1;
        let mut callframe = self.stack.pop().unwrap();
        callframe.pop();
        self.stack.push(callframe);
        self.lex_level -= 1;
        proof {
            let n = self.model();
            let p = pop_lex_model(m);
            assert(n.frames[last as int] =~= p.frames[last as int]);
            assert forall|i: int| 0 <= i < n.frames.len() implies n.frames[i] =~= p.frames[i] by {}
            assert(n.frames =~= p.frames);
        }
    }

    /// Declares `s` with value `v` in the innermost frame of the current call.
    pub fn add_new(&mut self, s: &str, v: Object)
        requires
            old(self).wf(),
            old(self).model().frames.len() > 0,
            old(self).model().lex_level > 0,
        ensures
            final(self).wf(),
            final(self).model() == add_new_model(old(self).model(), s@, v),
    {
        let ghost m = self.model();
        let last = self.stack.len() - 1;
        let mut callframe = self.stack.pop().unwrap();
        let inner = callframe.len() - 1;
        let mut lexframe = callframe.pop().unwrap();
        assert(keys_unique(lexframe@));
        assoc_insert(&mut lexframe, String::from_str(s), v);
        callframe.push(lexframe);
        self.stack.push(callframe);
        proof {
            let n = self.model();
            let p = add_new_model(m, s@, v);
            assert(n.frames[last as int] =~= p.frames[last as int]);
            assert forall|i: int| 0 <= i < n.frames.len() implies n.frames[i] =~= p.frames[i] by {}
            assert(n.frames =~= p.frames);
        }
    }

    /// The innermost level (from 0) of the current call's frames that holds `s`.
    fn find_level_exec(&self, s: &str) -> (r: Option<usize>)
        requires
            self.wf(),
            self.model().frames.len() > 0,
        ensures
            match r {
                Some(l) => l as int == find_level(top(self.model()), self.model().lex_level as int, s@) && l < self.model().lex_level,
                None => find_level(top(self.model()), self.model().lex_level as int, s@) == -1,
            },
            find_level(top(self.model()), self.model().lex_level as int, s@) == -1
                <==> lookup(top(self.model()), self.model().lex_level as int, s@) is None,
    {
        let ghost t = top(self.model());
        let last = self.stack.len() - 1;
        let callframe = &self.stack[last];
        let mut ll = self.lex_level;
        proof { lemma_find_level_lookup(t, ll as int, s@); }
        while ll > 0
            invariant
                self.wf(),
                t == top(self.model()),
                last == self.stack@.len() - 1,
                callframe == self.stack@[last as int],
                t.len() == callframe@.len(),
                ll <= self.model().lex_level,
                self.model().lex_level == t.len(),
                forall|j: int| 0 <= j < t.len() ==> #[trigger] t[j] == assoc_map(callframe@[j]@),
                find_level(t, self.model().lex_level as int, s@) == find_level(t, ll as int, s@),
            decreases ll,
        {
            let lexframe = &callframe[ll - 1];
            match assoc_find(lexframe, s) {
                Some(_) => {
                    proof { lemma_find_level_lookup(t, self.model().lex_level as int, s@); }
                    return Some(ll - 1);
                },
                None => {},
            }
            ll -= 1;
        }
        proof { lemma_find_level_lookup(t, self.model().lex_level as int, s@); }
        None
    }

    /// Whether `s` is visible in the current call.
    pub fn has(&self, s: &str) -> (r: bool)
        requires
            self.wf(),
            self.model().frames.len() > 0,
        ensures
            r == (visible(self.model(), s@) is Some),
    {
        self.find_level_exec(s).is_some()
    }

    /// Whether `s` is declared in the innermost frame of the current call.
    pub fn has_in_lexscope(&self, s: &str) -> (r: bool)
        requires
            self.wf(),
            self.model().frames.len() > 0,
            self.model().lex_level > 0,
        ensures
            r == top(self.model()).last().contains_key(s@),
    {
        let last = self.stack.len() - 1;
        let inner = self.stack[last].len() - 1;
        assoc_find(&self.stack[last][inner], s).is_some()
    }

    /// The value of `s` in the current call, which must be visible.
    pub fn get(&self, s: &str) -> (r: &Object)
        requires
            self.wf(),
            self.model().frames.len() > 0,
            visible(self.model(), s@) is Some,
        ensures
            *r == visible(self.model(), s@)->0,
    {
        let ghost t = top(self.model());
        let lvl = self.find_level_exec(s).unwrap();
        let last = self.stack.len() - 1;
        proof {
            lemma_find_level_value(t, self.model().lex_level as int, s@);
        }
        assoc_get(&self.stack[last][lvl], s).unwrap()
    }

    /// Sets `s` to `v` in the innermost frame of the current call that holds
    /// it, and says whether there was one.
    pub fn update(&mut self, s: &str, v: Object) -> (r: bool)
        requires
            old(self).wf(),
            old(self).model().frames.len() > 0,
        ensures
            final(self).wf(),
            r == (visible(old(self).model(), s@) is Some),
            final(self).model() == update_model(old(self).model(), s@, v),
    {
        let ghost m = self.model();
        match self.find_level_exec(s) {
            None => false,
            Some(lvl) => {
                let last = self.stack.len() - 1;
                let mut callframe = self.stack.pop().unwrap();
                let mut frame: LexFrame = Vec::new();
                std::mem::swap(&mut frame, &mut callframe[lvl]);
                assert(keys_unique(frame@));
                assoc_insert(&mut frame, String::from_str(s), v);
                std::mem::swap(&mut frame, &mut callframe[lvl]);
                self.stack.push(callframe);
                proof {
                    let n = self.model();
                    let p = update_model(m, s@, v);
                    assert(n.frames[last as int] =~= p.frames[last as int]);
                    assert forall|i: int| 0 <= i < n.frames.len() implies n.frames[i] =~= p.frames[i] by {}
                    assert(n.frames =~= p.frames);
                }
                true
            },
        }
    }
}

proof fn lemma_find_level_lookup(fs: Seq<Map<Seq<char>, Object>>, ll: int, k: Seq<char>)
    ensures
        find_level(fs, ll, k) == -1 <==> lookup(fs, ll, k) is None,
        find_level(fs, ll, k) != -1 ==> 0 <= find_level(fs, ll, k) < ll,
        find_level(fs, ll, k) != -1 ==> fs[find_level(fs, ll, k)].contains_key(k),
    decreases ll,
{
    if ll > 0 && ll <= fs.len() && !fs[ll - 1].contains_key(k) {
        lemma_find_level_lookup(fs, ll - 1, k);
    }
}

proof fn lemma_find_level_value(fs: Seq<Map<Seq<char>, Object>>, ll: int, k: Seq<char>)
    requires
        lookup(fs, ll, k) is Some,
    ensures
        0 <= find_level(fs, ll, k) < fs.len(),
        fs[find_level(fs, ll, k)].contains_key(k),
        lookup(fs, ll, k) == Some(fs[find_level(fs, ll, k)][k]),
    decreases ll,
{
    if ll > 0 && ll <= fs.len() && !fs[ll - 1].contains_key(k) {
        lemma_find_level_value(fs, ll - 1, k);
    }
}

proof fn lemma_lookup_same(t1: Seq<Map<Seq<char>, Object>>, t2: Seq<Map<Seq<char>, Object>>, ll: int, k: Seq<char>)
    requires
        ll <= t1.len(),
        t1.len() == t2.len(),
        forall|i: int| 0 <= i < ll ==> (#[trigger] t1[i]).contains_key(k) == t2[i].contains_key(k)
            && (t1[i].contains_key(k) ==> t1[i][k] == t2[i][k]),
    ensures
        lookup(t1, ll, k) == lookup(t2, ll, k),
    decreases ll,
{
    if ll > 0 {
        assert(t1[ll - 1].contains_key(k) == t2[ll - 1].contains_key(k));
        lemma_lookup_same(t1, t2, ll - 1, k);
    }
}

proof fn lemma_lookup_at_level(t: Seq<Map<Seq<char>, Object>>, ll: int, k: Seq<char>, v: Object)
    requires
        0 <= ll <= t.len(),
        find_level(t, ll, k) >= 0,
    ensures
        lookup(t.update(find_level(t, ll, k), t[find_level(t, ll, k)].insert(k, v)), ll, k) == Some(v),
    decreases ll,
{
    lemma_find_level_lookup(t, ll, k);
    let lvl = find_level(t, ll, k);
    let t2 = t.update(lvl, t[lvl].insert(k, v));
    if t[ll - 1].contains_key(k) {
        assert(lvl == ll - 1);
    } else {
        lemma_lookup_at_level(t, ll - 1, k, v);
        assert(!t2[ll - 1].contains_key(k));
    }
}

/// A name declared in the current scope is visible there with the value it
/// was declared with.
pub proof fn law_get_after_add_new(m: StackModel, k: Seq<char>, v: Object)
    requires
        in_call(m),
        m.lex_level > 0,
    ensures
        in_call(add_new_model(m, k, v)),
        visible(add_new_model(m, k, v), k) == Some(v),
{
}

/// Declaring a name leaves every other name as it was.
pub proof fn law_add_new_keeps_others(m: StackModel, k: Seq<char>, v: Object, other: Seq<char>)
    requires
        in_call(m),
        m.lex_level > 0,
        other != k,
    ensures
        visible(add_new_model(m, k, v), other) == visible(m, other),
{
    let t = top(m);
    let t2 = top(add_new_model(m, k, v));
    lemma_lookup_same(t, t2, m.lex_level as int, other);
}

/// Leaving a scope forgets what was declared in it: entering a scope,
/// declaring a name and leaving the scope gives back the stack as it was.
pub proof fn law_scope_exit_restores(m: StackModel, k: Seq<char>, v: Object)
    requires
        in_call(m),
    ensures
        pop_lex_model(add_new_model(push_lex_model(m), k, v)) == m,
{
    let r = pop_lex_model(add_new_model(push_lex_model(m), k, v));
    assert(top(r) =~= top(m));
    assert(r.frames =~= m.frames);
}

/// Returning from a call gives back the caller's stack as it was.
pub proof fn law_return_restores(m: StackModel)
    requires
        in_call(m),
    ensures
        pop_call_model(push_call_model(m)) == m,
{
    let r = pop_call_model(push_call_model(m));
    assert(r.frames =~= m.frames);
}

/// A called function sees none of its callers' variables.
pub proof fn law_callee_sees_nothing(m: StackModel, k: Seq<char>)
    ensures
        visible(push_call_model(m), k) is None,
{
    let t = top(push_call_model(m));
    assert(t =~= seq![Map::<Seq<char>, Object>::empty()]);
    assert(!t[0].contains_key(k));
    assert(lookup(t, 0, k) is None);
    assert(lookup(t, 1, k) is None);
}

/// Updating a visible name makes it hold the new value; updating a name that
/// is not visible changes nothing.
pub proof fn law_update_then_get(m: StackModel, k: Seq<char>, v: Object)
    requires
        in_call(m),
    ensures
        visible(m, k) is Some ==> visible(update_model(m, k, v), k) == Some(v),
        visible(m, k) is None ==> update_model(m, k, v) == m,
{
    lemma_find_level_lookup(top(m), m.lex_level as int, k);
    if visible(m, k) is Some {
        lemma_lookup_at_level(top(m), m.lex_level as int, k, v);
    }
}


/// Updating a name leaves every other name as it was, and the stack can
/// still be worked on.
pub proof fn law_update_keeps_others(m: StackModel, k: Seq<char>, v: Object, other: Seq<char>)
    requires
        in_call(m),
        other != k,
    ensures
        in_call(update_model(m, k, v)),
        update_model(m, k, v).lex_level == m.lex_level,
        visible(update_model(m, k, v), other) == visible(m, other),
{
    let t = top(m);
    let lvl = find_level(t, m.lex_level as int, k);
    lemma_find_level_lookup(t, m.lex_level as int, k);
    if lvl >= 0 {
        let t2 = t.update(lvl, t[lvl].insert(k, v));
        assert(top(update_model(m, k, v)) == t2);
        lemma_lookup_same(t, t2, m.lex_level as int, other);
    }
}

/// The keys that the values stored in stack state `m` refer to.
pub open spec fn stack_refs(m: StackModel) -> Set<Seq<char>> {
    Set::new(|k: Seq<char>| exists|c: int, l: int, n: Seq<char>|
        0 <= c < m.frames.len() && 0 <= l < m.frames[c].len() && #[trigger] m.frames[c][l].contains_key(n)
            && m.frames[c][l][n].ref_key() == Some(k))
}

/// The roots of a collection: the instance that `this` refers to and the
/// instances that values on the stack refer to.
pub open spec fn root_keys(o: ObjSys, m: StackModel) -> Set<Seq<char>> {
    Set::new(|k: Seq<char>| o.inst_index(k) >= 0 && (k == o.this_key() || stack_refs(m).contains(k)))
}

/// Entry `i` of lexical frame `l` of call `c` refers to key `k`.
pub open spec fn ref_at(s: Seq<Vec<LexFrame>>, c: int, l: int, i: int, k: Seq<char>) -> bool {
    &&& 0 <= c < s.len()
    &&& 0 <= l < s[c]@.len()
    &&& 0 <= i < s[c]@[l]@.len()
    &&& s[c]@[l]@[i].1.ref_key() == Some(k)
}

impl Stack {
    proof fn lemma_stack_refs(&self)
        requires
            self.wf(),
        ensures
            forall|k: Seq<char>| #[trigger] stack_refs(self.model()).contains(k) <==>
                exists|c: int, l: int, i: int| #[trigger] ref_at(self.stack@, c, l, i, k),
    {
        let s = self.stack@;
        let m = self.model();
        assert forall|k: Seq<char>| #[trigger] stack_refs(m).contains(k) implies
            exists|c: int, l: int, i: int| #[trigger] ref_at(s, c, l, i, k) by {
            let (c, l, n) = choose|c: int, l: int, n: Seq<char>|
                0 <= c < m.frames.len() && 0 <= l < m.frames[c].len() && #[trigger] m.frames[c][l].contains_key(n)
                    && m.frames[c][l][n].ref_key() == Some(k);
            let f = s[c]@[l]@;
            assert(m.frames[c][l] == assoc_map(f));
            lemma_assoc_map_domain(f, n);
            let i = choose|i: int| 0 <= i < f.len() && #[trigger] f[i].0@ == n;
            assert(keys_unique(s[c]@[l]@));
            lemma_assoc_map_value(f, i);
            assert(ref_at(s, c, l, i, k));
        }
        assert forall|k: Seq<char>| (exists|c: int, l: int, i: int| #[trigger] ref_at(s, c, l, i, k)) implies
            #[trigger] stack_refs(m).contains(k) by {
            let (c, l, i) = choose|c: int, l: int, i: int| #[trigger] ref_at(s, c, l, i, k);
            let f = s[c]@[l]@;
            assert(keys_unique(s[c]@[l]@));
            lemma_assoc_map_value(f, i);
            assert(m.frames[c][l] == assoc_map(f));
            let n = f[i].0@;
            assert(m.frames[c][l].contains_key(n));
        }
    }

    /// The keys of the roots of a collection, each at least once: the
    /// instance that `this` refers to first, then, from the innermost call and
    /// scope outwards, the instances that the values on the stack refer to.
    fn root_refs(&self, objsys: &ObjSys) -> (r: Vec<RefKey>)
        requires
            self.wf(),
        ensures
            forall|k: Seq<char>| key_seq(r@).contains(k) <==> #[trigger] root_keys(*objsys, self.model()).contains(k),
    {
        let ghost s = self.stack@;
        let ghost o = *objsys;
        let mut r: Vec<RefKey> = Vec::new();
        if objsys.has_this() {
            r.push(objsys.get_this());
            assert(key_seq(r@)[0] == o.this_key());
        }
        let mut cl: usize = self.call_level;
        while cl > 0
            invariant
                self.wf(),
                s == self.stack@,
                o == *objsys,
                cl <= s.len(),
                forall|j: int| 0 <= j < r@.len() ==> o.inst_index(#[trigger] key_seq(r@)[j]) >= 0
                    && (key_seq(r@)[j] == o.this_key() || exists|c: int, l: int, i: int| #[trigger] ref_at(s, c, l, i, key_seq(r@)[j])),
                o.inst_index(o.this_key()) >= 0 ==> key_seq(r@).contains(o.this_key()),
                forall|c: int, l: int, i: int, k: Seq<char>| #[trigger] ref_at(s, c, l, i, k) && cl <= c && o.inst_index(k) >= 0
                    ==> key_seq(r@).contains(k),
            decreases cl,
        {
            let callframe = &self.stack[cl - 1];
            let mut ll: usize = callframe.len();
            while ll > 0
                invariant
                    self.wf(),
                    s == self.stack@,
                    o == *objsys,
                    0 < cl <= s.len(),
                    *callframe == s[cl - 1],
                    ll <= callframe@.len(),
                    forall|j: int| 0 <= j < r@.len() ==> o.inst_index(#[trigger] key_seq(r@)[j]) >= 0
                        && (key_seq(r@)[j] == o.this_key() || exists|c: int, l: int, i: int| #[trigger] ref_at(s, c, l, i, key_seq(r@)[j])),
                    o.inst_index(o.this_key()) >= 0 ==> key_seq(r@).contains(o.this_key()),
                    forall|c: int, l: int, i: int, k: Seq<char>| #[trigger] ref_at(s, c, l, i, k)
                        && (cl <= c || (c == cl - 1 && ll <= l)) && o.inst_index(k) >= 0
                        ==> key_seq(r@).contains(k),
                decreases ll,
            {
                let lexframe = &callframe[ll - 1];
                let mut e: usize = 0;
                while e < lexframe.len()
                    invariant
                        self.wf(),
                        s == self.stack@,
                        o == *objsys,
                        0 < cl <= s.len(),
                        *callframe == s[cl - 1],
                        0 < ll <= callframe@.len(),
                        *lexframe == callframe@[ll - 1],
                        e <= lexframe@.len(),
                        forall|j: int| 0 <= j < r@.len() ==> o.inst_index(#[trigger] key_seq(r@)[j]) >= 0
                            && (key_seq(r@)[j] == o.this_key() || exists|c: int, l: int, i: int| #[trigger] ref_at(s, c, l, i, key_seq(r@)[j])),
                        o.inst_index(o.this_key()) >= 0 ==> key_seq(r@).contains(o.this_key()),
                        forall|c: int, l: int, i: int, k: Seq<char>| #[trigger] ref_at(s, c, l, i, k)
                            && (cl <= c || (c == cl - 1 && (ll <= l || (l == ll - 1 && i < e)))) && o.inst_index(k) >= 0
                            ==> key_seq(r@).contains(k),
                    decreases lexframe@.len() - e,
                {
                    let ghost r0 = r@;
                    match &lexframe[e].1 {
                        Object::Reference(rk) => {
                            if objsys.has_instance(rk) {
                                r.push(rk.duplicate());
                                proof {
                                    assert(ref_at(s, cl - 1, ll - 1, e as int, rk.0@));
                                    assert(key_seq(r@) == key_seq(r0).push(rk.0@));
                                    assert(key_seq(r@)[r0.len() as int] == rk.0@);
                                    assert forall|j: int| 0 <= j < r0.len() implies #[trigger] key_seq(r@)[j] == key_seq(r0)[j] by {}
                                }
                            }
                        },
                        _ => {},
                    }
                    proof {
                        assert forall|x: Seq<char>| key_seq(r0).contains(x) implies key_seq(r@).contains(x) by {
                            let j = choose|j: int| 0 <= j < key_seq(r0).len() && key_seq(r0)[j] == x;
                            assert(key_seq(r@)[j] == x);
                        }
                    }
                    e = e + 1;
                }
                ll = ll - 1;
            }
            cl = cl - 1;
        }
        proof {
            self.lemma_stack_refs();
            let m = self.model();
            assert forall|k: Seq<char>| key_seq(r@).contains(k) <==> #[trigger] root_keys(o, m).contains(k) by {
                if key_seq(r@).contains(k) {
                    let j = choose|j: int| 0 <= j < key_seq(r@).len() && key_seq(r@)[j] == k;
                    assert(o.inst_index(key_seq(r@)[j]) >= 0);
                    if k != o.this_key() {
                        assert(stack_refs(m).contains(k));
                    }
                }
                if root_keys(o, m).contains(k) {
                    if k != o.this_key() {
                        assert(stack_refs(m).contains(k));
                        let (c, l, i) = choose|c: int, l: int, i: int| #[trigger] ref_at(s, c, l, i, k);
                    }
                }
            }
        }
        r
    }

    /// Marks the roots of a collection and everything they refer to. Fails
    /// with the key of a referred object that is not on the heap.
    pub fn markroots(&self, objsys: &mut ObjSys) -> (r: Result<(), RefKey>)
        requires
            self.wf(),
            old(objsys).wf(),
        ensures
            final(objsys).wf(),
            marks_grow(*old(objsys), *final(objsys)),
            r is Ok ==> new_marks_closed(*old(objsys), *final(objsys)),
            r is Ok ==> forall|k: Seq<char>| #[trigger] root_keys(*old(objsys), self.model()).contains(k) ==>
                final(objsys).heap_has(k) && final(objsys).is_marked(k),
            r matches Err(missing) ==> !old(objsys).heap_has(missing.0@),
            new_marks_reachable(*old(objsys), *final(objsys), root_keys(*old(objsys), self.model())),
    {
        let roots = self.root_refs(objsys);
        let r = mark_all(objsys, &roots);
        proof {
            assert(key_set(roots@) =~= root_keys(*old(objsys), self.model()));
            if r is Ok {
                assert forall|k: Seq<char>| #[trigger] root_keys(*old(objsys), self.model()).contains(k) implies
                    objsys.heap_has(k) && objsys.is_marked(k) by {
                    assert(key_seq(roots@).contains(k));
                    let j = choose|j: int| 0 <= j < key_seq(roots@).len() && key_seq(roots@)[j] == k;
                    assert(roots@[j].0@ == k);
                }
            }
        }
        r
    }
}


/// The roots of a collection that also marks the objects under construction
/// with keys `cons`.
pub open spec fn gc_roots(o: ObjSys, m: StackModel, cons: Seq<RefKey>) -> Set<Seq<char>> {
    Set::new(|k: Seq<char>| key_seq(cons).contains(k) || root_keys(o, m).contains(k))
}

/// After a sweep from `a` to `b` and a clearing of the marks from `b` to
/// `c`: every object that `a` holds is still there as it was, or its key
/// is reported; and each reported key has left its table.
proof fn lemma_sweep_report(a: ObjSys, b: ObjSys, c: ObjSys, rep: SweepReport, k: Seq<char>)
    requires
        a.wf(),
        b.instances() == keep(a.instances(), |x: Instance| x.marked),
        b.lists() == keep(a.lists(), |x: InternalList| x.marked),
        b.files() == keep(a.files(), |x: InternalFile| x.marked),
        key_seq(rep.instances@) == keep(a.instances(), |x: Instance| !x.marked).map_values(|x: Instance| x.id.0@),
        key_seq(rep.lists@) == keep(a.lists(), |x: InternalList| !x.marked).map_values(|x: InternalList| x.id.0@),
        key_seq(rep.files@) == keep(a.files(), |x: InternalFile| !x.marked).map_values(|x: InternalFile| x.id.0@),
        c.instances().len() == b.instances().len(),
        c.lists().len() == b.lists().len(),
        c.files().len() == b.files().len(),
        forall|i: int| 0 <= i < c.instances().len() ==> (#[trigger] c.instances()[i]) == (Instance { marked: false, ..b.instances()[i] }),
        forall|i: int| 0 <= i < c.lists().len() ==> (#[trigger] c.lists()[i]) == (InternalList { marked: false, ..b.lists()[i] }),
        forall|i: int| 0 <= i < c.files().len() ==> (#[trigger] c.files()[i]) == (InternalFile { marked: false, ..b.files()[i] }),
    ensures
        a.heap_has(k) ==> same_object(a, c, k) || key_seq(rep.instances@).contains(k)
            || key_seq(rep.lists@).contains(k) || key_seq(rep.files@).contains(k),
        a.heap_has(k) && a.is_marked(k) ==> same_object(a, c, k),
        a.heap_has(k) && !a.is_marked(k) ==> key_seq(rep.instances@).contains(k)
            || key_seq(rep.lists@).contains(k) || key_seq(rep.files@).contains(k),
        key_seq(rep.instances@).contains(k) ==> a.inst_index(k) >= 0 && c.inst_index(k) < 0,
        key_seq(rep.lists@).contains(k) ==> a.list_index(k) >= 0 && c.list_index(k) < 0,
        key_seq(rep.files@).contains(k) ==> a.file_index(k) >= 0 && c.file_index(k) < 0,
{
    let idi = |x: Instance| x.id.0@;
    let idl = |x: InternalList| x.id.0@;
    let idf = |x: InternalFile| x.id.0@;
    assert(a.instances().map_values(idi) =~= instance_ids(a.instances()));
    assert(a.lists().map_values(idl) =~= list_ids(a.lists()));
    assert(a.files().map_values(idf) =~= file_ids(a.files()));
    assert(b.instances().map_values(idi) =~= instance_ids(b.instances()));
    assert(b.lists().map_values(idl) =~= list_ids(b.lists()));
    assert(b.files().map_values(idf) =~= file_ids(b.files()));
    assert(instance_ids(b.instances()) =~= instance_ids(c.instances()));
    assert(list_ids(b.lists()) =~= list_ids(c.lists()));
    assert(file_ids(b.files()) =~= file_ids(c.files()));
    lemma_keep_split(a.instances(), idi, |x: Instance| x.marked, |x: Instance| !x.marked, k);
    lemma_keep_split(a.lists(), idl, |x: InternalList| x.marked, |x: InternalList| !x.marked, k);
    lemma_keep_split(a.files(), idf, |x: InternalFile| x.marked, |x: InternalFile| !x.marked, k);
    lemma_first_index(instance_ids(a.instances()), k);
    lemma_first_index(list_ids(a.lists()), k);
    lemma_first_index(file_ids(a.files()), k);
    lemma_first_index(instance_ids(c.instances()), k);
    lemma_first_index(list_ids(c.lists()), k);
    lemma_first_index(file_ids(c.files()), k);
    if a.heap_has(k) {
        if a.is_marked(k) {
            lemma_sweep_keeps(a, b, k);
            lemma_clear_keeps(b, c, k);
            lemma_same_object_trans(a, b, c, k);
        } else if a.inst_index(k) >= 0 {
            let i = a.inst_index(k);
            assert(idi(a.instances()[i]) == k);
        } else if a.list_index(k) >= 0 {
            let i = a.list_index(k);
            assert(idl(a.lists()[i]) == k);
        } else {
            let i = a.file_index(k);
            assert(idf(a.files()[i]) == k);
        }
    }
    if key_seq(rep.instances@).contains(k) {
        let i = choose|i: int| 0 <= i < a.instances().len() && #[trigger] idi(a.instances()[i]) == k && !a.instances()[i].marked;
        assert(instance_ids(a.instances())[i] == k);
    }
    if key_seq(rep.lists@).contains(k) {
        let i = choose|i: int| 0 <= i < a.lists().len() && #[trigger] idl(a.lists()[i]) == k && !a.lists()[i].marked;
        assert(list_ids(a.lists())[i] == k);
    }
    if key_seq(rep.files@).contains(k) {
        let i = choose|i: int| 0 <= i < a.files().len() && #[trigger] idf(a.files()[i]) == k && !a.files()[i].marked;
        assert(file_ids(a.files())[i] == k);
    }
}

impl Stack {
    /// Collects garbage: marks the objects under construction, with keys
    /// `constructing`, and the roots, with everything they refer to; removes
    /// every object left unmarked and reports its key; then clears the marks.
    /// Fails with the key of a referred object that is not on the heap.
    pub fn garbagecollect(&self, objsys: &mut ObjSys, constructing: &Vec<RefKey>) -> (r: Result<SweepReport, RefKey>)
        requires
            self.wf(),
            old(objsys).wf(),
        ensures
            final(objsys).wf(),
            final(objsys).classes() == old(objsys).classes(),
            final(objsys).this_key() == old(objsys).this_key(),
            r is Ok ==> final(objsys).all_unmarked(),
            r matches Ok(rep) ==> forall|k: Seq<char>| #[trigger] old(objsys).heap_has(k) ==>
                same_object(*old(objsys), *final(objsys), k) || key_seq(rep.instances@).contains(k)
                    || key_seq(rep.lists@).contains(k) || key_seq(rep.files@).contains(k),
            r matches Ok(rep) ==> forall|k: Seq<char>| #[trigger] key_seq(rep.instances@).contains(k) ==>
                old(objsys).inst_index(k) >= 0 && final(objsys).inst_index(k) < 0,
            r matches Ok(rep) ==> forall|k: Seq<char>| #[trigger] key_seq(rep.lists@).contains(k) ==>
                old(objsys).list_index(k) >= 0 && final(objsys).list_index(k) < 0,
            r matches Ok(rep) ==> forall|k: Seq<char>| #[trigger] key_seq(rep.files@).contains(k) ==>
                old(objsys).file_index(k) >= 0 && final(objsys).file_index(k) < 0,
            r is Ok && old(objsys).all_unmarked() ==> forall|k: Seq<char>|
                #[trigger] reachable(*old(objsys), gc_roots(*old(objsys), self.model(), constructing@), k) ==>
                    same_object(*old(objsys), *final(objsys), k),
            r matches Ok(rep) ==> old(objsys).all_unmarked() ==> forall|k: Seq<char>|
                #[trigger] old(objsys).heap_has(k)
                    && !reachable(*old(objsys), gc_roots(*old(objsys), self.model(), constructing@), k) ==>
                    key_seq(rep.instances@).contains(k) || key_seq(rep.lists@).contains(k)
                        || key_seq(rep.files@).contains(k),
            r is Err ==> marks_grow(*old(objsys), *final(objsys)),
            r matches Err(missing) ==> !old(objsys).heap_has(missing.0@),
    {
        let ghost o0 = *objsys;
        match mark_all(objsys, constructing) {
            Ok(()) => {},
            Err(missing) => {
                return Err(missing);
            },
        }
        let ghost o1 = *objsys;
        match self.markroots(objsys) {
            Ok(()) => {},
            Err(missing) => {
                proof {
                    lemma_marks_grow_facts(o0, o1);
                    lemma_marks_grow_trans(o0, o1, *objsys);
                }
                return Err(missing);
            },
        }
        let ghost o2 = *objsys;
        proof {
            lemma_marks_grow_facts(o0, o1);
            lemma_marks_grow_facts(o1, o2);
            lemma_new_marks_closed_trans(o0, o1, o2);
            let m = self.model();
            assert(root_keys(o1, m) =~= root_keys(o0, m));
            lemma_new_marks_reachable_trans(o0, o1, o2, key_set(constructing@), root_keys(o1, m),
                gc_roots(o0, m, constructing@));
        }
        let rep = sweep(objsys);
        let ghost o3 = *objsys;
        clearmark(objsys);
        proof {
            let o4 = *objsys;
            assert forall|k: Seq<char>| #[trigger] o0.heap_has(k) implies
                same_object(o0, o4, k) || key_seq(rep.instances@).contains(k)
                    || key_seq(rep.lists@).contains(k) || key_seq(rep.files@).contains(k) by {
                lemma_sweep_report(o2, o3, o4, rep, k);
                lemma_marks_grow_same(o0, o2, k);
                if same_object(o2, o4, k) {
                    lemma_same_object_trans(o0, o2, o4, k);
                }
            }
            assert forall|k: Seq<char>| #[trigger] key_seq(rep.instances@).contains(k) implies
                o0.inst_index(k) >= 0 && o4.inst_index(k) < 0 by {
                lemma_sweep_report(o2, o3, o4, rep, k);
            }
            assert forall|k: Seq<char>| #[trigger] key_seq(rep.lists@).contains(k) implies
                o0.list_index(k) >= 0 && o4.list_index(k) < 0 by {
                lemma_sweep_report(o2, o3, o4, rep, k);
            }
            assert forall|k: Seq<char>| #[trigger] key_seq(rep.files@).contains(k) implies
                o0.file_index(k) >= 0 && o4.file_index(k) < 0 by {
                lemma_sweep_report(o2, o3, o4, rep, k);
            }
            if o0.all_unmarked() {
                let roots = gc_roots(o0, self.model(), constructing@);
                lemma_unmarked_closed(o0);
                lemma_mark_keeps_closed(o0, o2);
                assert forall|x: Seq<char>| #[trigger] roots.contains(x) implies o2.heap_has(x) && o2.is_marked(x) by {
                    if key_seq(constructing@).contains(x) {
                        let j = choose|j: int| 0 <= j < key_seq(constructing@).len() && key_seq(constructing@)[j] == x;
                        assert(constructing@[j].0@ == x);
                        assert(o1.heap_has(x) && o1.is_marked(x));
                    } else {
                        assert(root_keys(o1, self.model()).contains(x));
                    }
                }
                assert forall|k: Seq<char>| #[trigger] o0.heap_has(k) && !reachable(o0, roots, k) implies
                    key_seq(rep.instances@).contains(k) || key_seq(rep.lists@).contains(k)
                        || key_seq(rep.files@).contains(k) by {
                    assert(!o0.is_marked(k));
                    assert(!o2.is_marked(k));
                    assert(o2.heap_has(k));
                    lemma_sweep_report(o2, o3, o4, rep, k);
                }
                assert forall|k: Seq<char>| #[trigger] reachable(o0, roots, k) implies same_object(o0, o4, k) by {
                    lemma_reachable_grow(o0, o2, roots, k);
                    lemma_reachable_marked(o2, roots, k);
                    lemma_sweep_report(o2, o3, o4, rep, k);
                    lemma_marks_grow_same(o0, o2, k);
                    lemma_same_object_trans(o0, o2, o4, k);
                }
            }
        }
        Ok(rep)
    }
}

} // verus!
