//! The environment: a chain of mutable scopes.
//!
//! All scopes live in one arena, and a scope is addressed by its index
//! there; a scope optionally encloses an earlier one.  Several handles may
//! name the same scope — a closure keeps the index of the scope it
//! captured — so a mutation through one handle is seen through every
//! other, as the language's closure semantics require.  The state also
//! carries the lines printed so far and, as ghost data, the stream of
//! samples the host will hand to native-function calls together with how
//! many have been consumed — so one state value describes a whole run and
//! the semantics stays a function of the state.

use vstd::prelude::*;

use vstd::pervasive::arbitrary;

use crate::text;
use crate::value::{clone_value, Value, ValueV};

verus! {

/// One scope: its bindings (later entries shadow earlier ones of the same
/// name) and the index of the enclosing scope, if any.
pub struct Scope {
    pub entries: Vec<(Vec<u8>, Value)>,
    pub enclosing: Option<usize>,
}

/// The spec-level form of a scope: a map of bindings and the enclosing
/// index.
#[verifier::ext_equal]
pub struct ScopeV {
    pub vals: Map<Seq<u8>, ValueV>,
    pub enclosing: Option<nat>,
}

/// The bindings of an entry list, later entries winning.
pub open spec fn assoc_map(entries: Seq<(Vec<u8>, Value)>) -> Map<Seq<u8>, ValueV>
    decreases entries,
{
    if entries.len() == 0 {
        Map::empty()
    } else {
        assoc_map(entries.drop_last()).insert(entries.last().0@, entries.last().1@)
    }
}

impl View for Scope {
    type V = ScopeV;

    open spec fn view(&self) -> ScopeV {
        ScopeV {
            vals: assoc_map(self.entries@),
            enclosing: match self.enclosing {
                Option::Some(p) => Option::Some(p as nat),
                Option::None => Option::None,
            },
        }
    }
}

/// The interpreter's state: the scope arena, the current scope, the
/// lines printed so far, and — as ghost data — the stream of samples the
/// host clock will deliver to native-function calls, with the count
/// already consumed.
pub struct Environment {
    pub scopes: Vec<Scope>,
    pub cur: usize,
    pub output: Vec<Vec<u8>>,
    // The sample stream and its consumed count are deliberately private:
    // were they writable outside this module, ghost code could constrain
    // the stream and so "predict" what the host clock returns.  Only
    // `new` (which leaves the stream unconstrained) and the trusted clock
    // wrapper's contract speak about them.
    ticks: Ghost<Seq<u64>>,
    tick: Ghost<nat>,
}

/// The spec-level form of the interpreter's state.
#[verifier::ext_equal]
pub struct StateV {
    pub scopes: Seq<ScopeV>,
    pub cur: nat,
    pub output: Seq<Seq<u8>>,
    pub ticks: Seq<u64>,
    pub tick: nat,
}

impl View for Environment {
    type V = StateV;

    closed spec fn view(&self) -> StateV {
        StateV {
            scopes: self.scopes@.map_values(|s: Scope| s@),
            cur: self.cur as nat,
            output: self.output.deep_view(),
            ticks: self.ticks@,
            tick: self.tick@,
        }
    }
}

/// Whether scope `i` encloses only an earlier scope.
pub open spec fn scope_wf(st: StateV, i: int) -> bool {
    match st.scopes[i].enclosing {
        Option::Some(p) => p < i,
        Option::None => true,
    }
}

/// Well-formedness of a state: the current scope exists and every scope
/// encloses an earlier one, so chains are finite.
pub open spec fn wf_state(st: StateV) -> bool {
    &&& st.cur < st.scopes.len()
    &&& forall|i: int| 0 <= i < st.scopes.len() ==> #[trigger] scope_wf(st, i)
}

/// Dynamic lookup: the binding of `name` in scope `h` or the nearest
/// enclosing scope that has one.
pub open spec fn lookup_scope(st: StateV, h: nat, name: Seq<u8>) -> Option<ValueV>
    decreases h,
{
    if h < st.scopes.len() {
        let sc = st.scopes[h as int];
        if sc.vals.contains_key(name) {
            Option::Some(sc.vals[name])
        } else {
            match sc.enclosing {
                Option::Some(p) => if p < h {
                    lookup_scope(st, p, name)
                } else {
                    Option::None
                },
                Option::None => Option::None,
            }
        }
    } else {
        Option::None
    }
}

/// The state with the binding of `name` in scope `h` set to `v`.
pub open spec fn update_scope_val(st: StateV, h: nat, name: Seq<u8>, v: ValueV) -> StateV {
    StateV {
        scopes: st.scopes.update(
            h as int,
            ScopeV {
                vals: st.scopes[h as int].vals.insert(name, v),
                enclosing: st.scopes[h as int].enclosing,
            },
        ),
        ..st
    }
}

/// Dynamic assignment: update the binding of `name` in scope `h` or the
/// nearest enclosing scope that has one; None where no scope binds it.
pub open spec fn assign_scope(st: StateV, h: nat, name: Seq<u8>, v: ValueV) -> Option<StateV>
    decreases h,
{
    if h < st.scopes.len() {
        let sc = st.scopes[h as int];
        if sc.vals.contains_key(name) {
            Option::Some(update_scope_val(st, h, name, v))
        } else {
            match sc.enclosing {
                Option::Some(p) => if p < h {
                    assign_scope(st, p, name, v)
                } else {
                    Option::None
                },
                Option::None => Option::None,
            }
        }
    } else {
        Option::None
    }
}

/// Define `name` in the current scope, shadowing or overwriting.
pub open spec fn spec_define(st: StateV, name: Seq<u8>, v: ValueV) -> StateV {
    update_scope_val(st, st.cur, name, v)
}

/// The scope exactly `d` links above `h`.
pub open spec fn scope_at(st: StateV, h: nat, d: nat) -> Option<nat>
    decreases d,
{
    if h >= st.scopes.len() {
        Option::None
    } else if d == 0 {
        Option::Some(h)
    } else {
        match st.scopes[h as int].enclosing {
            Option::Some(p) => scope_at(st, p, (d - 1) as nat),
            Option::None => Option::None,
        }
    }
}

/// The binding of `name` in scope `h` itself, without walking the chain.
pub open spec fn lookup_direct(st: StateV, h: nat, name: Seq<u8>) -> Option<ValueV> {
    if h < st.scopes.len() && st.scopes[h as int].vals.contains_key(name) {
        Option::Some(st.scopes[h as int].vals[name])
    } else {
        Option::None
    }
}

/// The spec-level form of a resolver distance.
pub open spec fn dist_view(d: Option<usize>) -> Option<nat> {
    match d {
        Option::Some(n) => Option::Some(n as nat),
        Option::None => Option::None,
    }
}

/// Resolved lookup: a distance names the scope exactly that many links
/// above the current one; no distance names the outermost scope.
pub open spec fn spec_get_at(st: StateV, dist: Option<nat>, name: Seq<u8>) -> Option<ValueV> {
    match dist {
        Option::None => lookup_direct(st, 0, name),
        Option::Some(d) => match scope_at(st, st.cur, d) {
            Option::Some(h) => lookup_direct(st, h, name),
            Option::None => Option::None,
        },
    }
}

/// Resolved assignment: as `spec_get_at`, but updating the binding.
pub open spec fn spec_assign_at(st: StateV, dist: Option<nat>, name: Seq<u8>, v: ValueV) -> Option<
    StateV,
> {
    match dist {
        Option::None => if lookup_direct(st, 0, name) is Some {
            Option::Some(update_scope_val(st, 0, name, v))
        } else {
            Option::None
        },
        Option::Some(d) => match scope_at(st, st.cur, d) {
            Option::Some(h) => if lookup_direct(st, h, name) is Some {
                Option::Some(update_scope_val(st, h, name, v))
            } else {
                Option::None
            },
            Option::None => Option::None,
        },
    }
}

/// The state with a fresh empty scope appended, enclosing `parent`, as the
/// new current scope.
pub open spec fn spec_push_child(st: StateV, parent: nat) -> StateV {
    StateV {
        scopes: st.scopes.push(
            ScopeV { vals: Map::empty(), enclosing: Option::Some(parent) },
        ),
        cur: st.scopes.len(),
        ..st
    }
}

/// A successful dynamic assignment changes no scope count, current scope
/// or output.
pub proof fn lemma_assign_scope_len(st: StateV, h: nat, name: Seq<u8>, v: ValueV)
    ensures
        match assign_scope(st, h, name, v) {
            Option::Some(st2) => st2.scopes.len() == st.scopes.len() && st2.cur == st.cur
                && st2.output == st.output,
            Option::None => true,
        },
    decreases h,
{
    if h < st.scopes.len() {
        let sc = st.scopes[h as int];
        if !sc.vals.contains_key(name) {
            match sc.enclosing {
                Option::Some(p) => {
                    if p < h {
                        lemma_assign_scope_len(st, p, name, v);
                    }
                }
                Option::None => {}
            }
        }
    }
}

/// A distance walk lands inside the arena.
pub proof fn lemma_scope_at_bound(st: StateV, h: nat, d: nat)
    ensures
        match scope_at(st, h, d) {
            Option::Some(h2) => h2 < st.scopes.len(),
            Option::None => true,
        },
    decreases d,
{
    if h < st.scopes.len() && d > 0 {
        match st.scopes[h as int].enclosing {
            Option::Some(p) => {
                lemma_scope_at_bound(st, p, (d - 1) as nat);
            }
            Option::None => {}
        }
    }
}

/// A successful resolved assignment changes no scope count, current scope
/// or output.
pub proof fn lemma_assign_at_len(st: StateV, dist: Option<nat>, name: Seq<u8>, v: ValueV)
    ensures
        match spec_assign_at(st, dist, name, v) {
            Option::Some(st2) => st2.scopes.len() == st.scopes.len() && st2.cur == st.cur
                && st2.output == st.output,
            Option::None => true,
        },
{
    match dist {
        Option::Some(d) => {
            lemma_scope_at_bound(st, st.cur, d);
        }
        Option::None => {
            if lookup_direct(st, 0, name) is Some {
                assert(0 < st.scopes.len());
            }
        }
    }
}

/// An entry whose key has no later duplicate gives the map's binding.
proof fn lemma_assoc_found(entries: Seq<(Vec<u8>, Value)>, i: int)
    requires
        0 <= i < entries.len(),
        forall|k: int| i < k < entries.len() ==> #[trigger] entries[k].0@ != entries[i].0@,
    ensures
        assoc_map(entries).contains_key(entries[i].0@),
        assoc_map(entries)[entries[i].0@] == entries[i].1@,
    decreases entries.len(),
{
    if i < entries.len() - 1 {
        assert(entries.drop_last()[i] == entries[i]);
        lemma_assoc_found(entries.drop_last(), i);
    }
}

/// A key matching no entry is absent from the map.
proof fn lemma_assoc_absent(entries: Seq<(Vec<u8>, Value)>, name: Seq<u8>)
    requires
        forall|k: int| 0 <= k < entries.len() ==> #[trigger] entries[k].0@ != name,
    ensures
        !assoc_map(entries).contains_key(name),
    decreases entries.len(),
{
    if entries.len() > 0 {
        lemma_assoc_absent(entries.drop_last(), name);
    }
}

/// Updating the last entry of a key rewrites that key's binding.
proof fn lemma_assoc_update(entries: Seq<(Vec<u8>, Value)>, i: int, e: (Vec<u8>, Value))
    requires
        0 <= i < entries.len(),
        e.0@ == entries[i].0@,
        forall|k: int| i < k < entries.len() ==> #[trigger] entries[k].0@ != entries[i].0@,
    ensures
        assoc_map(entries.update(i, e)) == assoc_map(entries).insert(e.0@, e.1@),
    decreases entries.len(),
{
    let u = entries.update(i, e);
    if i == entries.len() - 1 {
        assert(u.drop_last() =~= entries.drop_last());
        assert(u.last() == e);
        assert(assoc_map(entries.drop_last()).insert(e.0@, e.1@) =~= assoc_map(
            entries.drop_last(),
        ).insert(entries[i].0@, entries[i].1@).insert(e.0@, e.1@));
    } else {
        assert(u.drop_last() =~= entries.drop_last().update(i, e));
        assert(u.last() == entries.last());
        assert(entries.drop_last()[i] == entries[i]);
        lemma_assoc_update(entries.drop_last(), i, e);
        assert(assoc_map(entries.drop_last()).insert(e.0@, e.1@).insert(
            entries.last().0@,
            entries.last().1@,
        ) =~= assoc_map(entries.drop_last()).insert(entries.last().0@, entries.last().1@).insert(
            e.0@,
            e.1@,
        ));
    }
}

/// Find the index of the last entry of a key, if any.
fn find_entry(entries: &Vec<(Vec<u8>, Value)>, name: &Vec<u8>) -> (r: Option<usize>)
    ensures
        match r {
            Option::Some(i) => {
                &&& i < entries@.len()
                &&& entries@[i as int].0@ == name@
                &&& forall|k: int|
                    i < k < entries@.len() ==> #[trigger] entries@[k].0@ != name@
                &&& assoc_map(entries@).contains_key(name@)
                &&& assoc_map(entries@)[name@] == entries@[i as int].1@
            },
            Option::None => !assoc_map(entries@).contains_key(name@),
        },
{
    let mut j: usize = entries.len();
    while j > 0
        invariant
            j <= entries@.len(),
            forall|k: int| j <= k < entries@.len() ==> #[trigger] entries@[k].0@ != name@,
        decreases j,
    {
        j = j - 1;
        if text::bytes_eq(&entries[j].0, name) {
            proof {
                lemma_assoc_found(entries@, j as int);
            }
            return Option::Some(j);
        }
    }
    proof {
        lemma_assoc_absent(entries@, name@);
    }
    Option::None
}

impl Environment {
    /// A fresh state: one empty root scope, nothing printed, no sample
    /// consumed.  The pending sample stream is left unconstrained: what
    /// its entries are is settled only by the host clock, one call at a
    /// time.
    pub fn new() -> (e: Environment)
        ensures
            e@.scopes.len() == 1,
            e@.scopes[0] == (ScopeV { vals: Map::<Seq<u8>, ValueV>::empty(), enclosing: Option::None }),
            e@.cur == 0,
            e@.output == Seq::<Seq<u8>>::empty(),
            e@.tick == 0,
            wf_state(e@),
    {
        let root = Scope { entries: Vec::new(), enclosing: Option::None };
        let mut scopes: Vec<Scope> = Vec::new();
        scopes.push(root);
        let e = Environment {
            scopes,
            cur: 0,
            output: Vec::new(),
            ticks: Ghost(arbitrary()),
            tick: Ghost(0),
        };
        proof {
            assert(e@.scopes =~= seq![
                ScopeV { vals: Map::<Seq<u8>, ValueV>::empty(), enclosing: Option::None },
            ]);
            assert(e@.output =~= Seq::<Seq<u8>>::empty());
        }
        e
    }

    /// The number of scopes in the arena.
    pub fn scope_count(&self) -> (n: usize)
        ensures
            n == self@.scopes.len(),
    {
        self.scopes.len()
    }

    /// The current scope's handle.
    pub fn current(&self) -> (h: usize)
        ensures
            h as nat == self@.cur,
    {
        self.cur
    }

    /// Enter a fresh scope enclosing the current one; the previous current
    /// handle is returned so the caller can come back to it.
    pub fn with_enclosing(&mut self) -> (prev: usize)
        requires
            wf_state(old(self)@),
        ensures
            prev as nat == old(self)@.cur,
            final(self)@ == spec_push_child(old(self)@, old(self)@.cur),
            wf_state(final(self)@),
    {
        let prev = self.cur;
        self.enter_child_of(prev);
        prev
    }

    /// Enter a fresh scope enclosing `parent`; used when a function call
    /// opens a scope under the function's captured closure scope.
    pub fn enter_child_of(&mut self, parent: usize)
        requires
            wf_state(old(self)@),
            parent < old(self)@.scopes.len(),
        ensures
            final(self)@ == spec_push_child(old(self)@, parent as nat),
            wf_state(final(self)@),
    {
        let h = self.scopes.len();
        self.scopes.push(Scope { entries: Vec::new(), enclosing: Option::Some(parent) });
        self.cur = h;
        proof {
            assert(self@ =~= spec_push_child(old(self)@, parent as nat));
            let st = self@;
            assert forall|i: int| 0 <= i < st.scopes.len() implies #[trigger] scope_wf(st, i) by {
                if i < st.scopes.len() - 1 {
                    assert(scope_wf(old(self)@, i));
                    assert(st.scopes[i] == old(self)@.scopes[i]);
                }
            }
        }
    }

    /// Make `h` the current scope again.
    pub fn set_current(&mut self, h: usize)
        requires
            wf_state(old(self)@),
            h < old(self)@.scopes.len(),
        ensures
            final(self)@ == (StateV { cur: h as nat, ..old(self)@ }),
            wf_state(final(self)@),
    {
        self.cur = h;
        proof {
            assert(self@ =~= (StateV { cur: h as nat, ..old(self)@ }));
            let st = self@;
            assert forall|i: int| 0 <= i < st.scopes.len() implies #[trigger] scope_wf(st, i) by {
                assert(scope_wf(old(self)@, i));
            }
        }
    }

    /// Append a printed line.
    pub fn push_output(&mut self, line: Vec<u8>)
        ensures
            final(self)@ == (StateV { output: old(self)@.output.push(line@), ..old(self)@ }),
            wf_state(old(self)@) ==> wf_state(final(self)@),
    {
        self.output.push(line);
        proof {
            if wf_state(old(self)@) {
                assert forall|i: int| 0 <= i < self@.scopes.len() implies #[trigger] scope_wf(
                    self@,
                    i,
                ) by {
                    assert(scope_wf(old(self)@, i));
                }
            }
            text::lemma_deep_view_push(old(self).output, line, self.output);
            assert(self@ =~= (StateV { output: old(self)@.output.push(line@), ..old(self)@ }));
        }
    }

    /// Bind `name` to `value` in the current scope, shadowing any outer
    /// binding and overwriting any existing one here.  Never fails.
    pub fn define(&mut self, name: &Vec<u8>, value: Value)
        requires
            wf_state(old(self)@),
        ensures
            final(self)@ == spec_define(old(self)@, name@, value@),
            wf_state(final(self)@),
    {
        let h = self.cur;
        let entry = (text::clone_bytes(name), value);
        let ghost old_st = self@;
        let sc = &mut self.scopes[h];
        proof {
            assert(entry.1@ == value@);
        }
        sc.entries.push(entry);
        proof {
            let st = self@;
            assert(st.scopes[h as int].vals =~= old_st.scopes[h as int].vals.insert(
                name@,
                value@,
            )) by {
                let es = old(self).scopes@[h as int].entries@;
                assert(es.push(entry).drop_last() =~= es);
                assert(es.push(entry).last() == entry);
            }
            assert(st =~= spec_define(old_st, name@, value@));
            assert forall|i: int| 0 <= i < st.scopes.len() implies #[trigger] scope_wf(st, i) by {
                assert(scope_wf(old_st, i));
            }
        }
    }

    /// Look `name` up from the current scope outwards, returning a copy of
    /// the nearest binding.
    pub fn get(&self, name: &Vec<u8>) -> (r: Option<Value>)
        requires
            wf_state(self@),
        ensures
            match r {
                Option::Some(v) => lookup_scope(self@, self@.cur, name@) == Option::Some(v@),
                Option::None => lookup_scope(self@, self@.cur, name@) == Option::<ValueV>::None,
            },
    {
        let ghost st = self@;
        let mut h = self.cur;
        loop
            invariant
                wf_state(st),
                st == self@,
                h < st.scopes.len(),
                lookup_scope(st, st.cur, name@) == lookup_scope(st, h as nat, name@),
            decreases h,
        {
            let idx = find_entry(&self.scopes[h].entries, name);
            match idx {
                Option::Some(i) => {
                    return Option::Some(clone_value(&self.scopes[h].entries[i].1));
                }
                Option::None => {
                    match self.scopes[h].enclosing {
                        Option::Some(p) => {
                            proof {
                                assert(scope_wf(st, h as int));
                            }
                            h = p;
                        }
                        Option::None => {
                            return Option::None;
                        }
                    }
                }
            }
        }
    }

    /// Assign `value` to the nearest binding of `name` from the current
    /// scope outwards; the assigned value is handed back, or Err where no
    /// scope binds the name (the state is then unchanged).
    pub fn assign(&mut self, name: &Vec<u8>, value: Value) -> (r: Result<Value, ()>)
        requires
            wf_state(old(self)@),
        ensures
            wf_state(final(self)@),
            match r {
                Result::Ok(v) => {
                    &&& v@ == value@
                    &&& assign_scope(old(self)@, old(self)@.cur, name@, value@) == Option::Some(
                        final(self)@,
                    )
                },
                Result::Err(_) => {
                    &&& final(self)@ == old(self)@
                    &&& assign_scope(old(self)@, old(self)@.cur, name@, value@)
                        == Option::<StateV>::None
                },
            },
    {
        let ghost st = old(self)@;
        let mut h = self.cur;
        loop
            invariant
                wf_state(st),
                st == self@,
                *self == *old(self),
                h < st.scopes.len(),
                assign_scope(st, st.cur, name@, value@) == assign_scope(st, h as nat, name@, value@),
            decreases h,
        {
            let idx = find_entry(&self.scopes[h].entries, name);
            match idx {
                Option::Some(i) => {
                    let ret = clone_value(&value);
                    let entry = (text::clone_bytes(name), value);
                    proof {
                        assert(entry.1@ == value@);
                    }
                    let sc = &mut self.scopes[h];
                    sc.entries[i] = entry;
                    proof {
                        lemma_assoc_update(
                            old(self).scopes@[h as int].entries@,
                            i as int,
                            (entry.0, entry.1),
                        );
                        let now = self@;
                        assert(now.scopes[h as int].vals =~= st.scopes[h as int].vals.insert(
                            name@,
                            value@,
                        ));
                        assert(now =~= update_scope_val(st, h as nat, name@, value@));
                        assert forall|j: int| 0 <= j < now.scopes.len() implies #[trigger] scope_wf(
                            now,
                            j,
                        ) by {
                            assert(scope_wf(st, j));
                        }
                    }
                    return Result::Ok(ret);
                }
                Option::None => {
                    match self.scopes[h].enclosing {
                        Option::Some(p) => {
                            proof {
                                assert(scope_wf(st, h as int));
                            }
                            h = p;
                        }
                        Option::None => {
                            return Result::Err(());
                        }
                    }
                }
            }
        }
    }

    /// Resolved lookup at a distance: `Some(d)` addresses the scope exactly
    /// `d` links above the current one, `None` the outermost scope.
    pub fn get_at(&self, distance: Option<usize>, name: &Vec<u8>) -> (r: Option<Value>)
        requires
            wf_state(self@),
        ensures
            match r {
                Option::Some(v) => spec_get_at(self@, dist_view(distance), name@) == Option::Some(
                    v@,
                ),
                Option::None => spec_get_at(self@, dist_view(distance), name@)
                    == Option::<ValueV>::None,
            },
    {
        let h = match distance {
            Option::None => 0,
            Option::Some(d) => {
                match self.walk_up(d) {
                    Option::Some(h) => h,
                    Option::None => {
                        return Option::None;
                    }
                }
            }
        };
        let idx = find_entry(&self.scopes[h].entries, name);
        match idx {
            Option::Some(i) => Option::Some(clone_value(&self.scopes[h].entries[i].1)),
            Option::None => Option::None,
        }
    }

    /// Resolved assignment at a distance; Err where the addressed scope
    /// does not bind the name (the state is then unchanged).
    pub fn assign_at(&mut self, distance: Option<usize>, name: &Vec<u8>, value: Value) -> (r:
        Result<Value, ()>)
        requires
            wf_state(old(self)@),
        ensures
            wf_state(final(self)@),
            match r {
                Result::Ok(v) => {
                    &&& v@ == value@
                    &&& spec_assign_at(old(self)@, dist_view(distance), name@, value@)
                        == Option::Some(final(self)@)
                },
                Result::Err(_) => {
                    &&& final(self)@ == old(self)@
                    &&& spec_assign_at(old(self)@, dist_view(distance), name@, value@)
                        == Option::<StateV>::None
                },
            },
    {
        let ghost st = old(self)@;
        let h = match distance {
            Option::None => 0,
            Option::Some(d) => {
                match self.walk_up(d) {
                    Option::Some(h) => h,
                    Option::None => {
                        return Result::Err(());
                    }
                }
            }
        };
        let idx = find_entry(&self.scopes[h].entries, name);
        match idx {
            Option::Some(i) => {
                let ret = clone_value(&value);
                let entry = (text::clone_bytes(name), value);
                proof {
                    assert(entry.1@ == value@);
                }
                let sc = &mut self.scopes[h];
                sc.entries[i] = entry;
                proof {
                    lemma_assoc_update(
                        old(self).scopes@[h as int].entries@,
                        i as int,
                        (entry.0, entry.1),
                    );
                    let now = self@;
                    assert(now.scopes[h as int].vals =~= st.scopes[h as int].vals.insert(
                        name@,
                        value@,
                    ));
                    assert(now =~= update_scope_val(st, h as nat, name@, value@));
                    assert forall|j: int| 0 <= j < now.scopes.len() implies #[trigger] scope_wf(
                        now,
                        j,
                    ) by {
                        assert(scope_wf(st, j));
                    }
                }
                Result::Ok(ret)
            }
            Option::None => Result::Err(()),
        }
    }

    /// The handle of the scope exactly `d` links above the current one.
    fn walk_up(&self, d: usize) -> (r: Option<usize>)
        requires
            wf_state(self@),
        ensures
            match r {
                Option::Some(h) => scope_at(self@, self@.cur, d as nat) == Option::Some(h as nat)
                    && h < self@.scopes.len(),
                Option::None => scope_at(self@, self@.cur, d as nat) == Option::<nat>::None,
            },
    {
        let ghost st = self@;
        let mut h = self.cur;
        let mut left = d;
        while left > 0
            invariant
                wf_state(st),
                st == self@,
                h < st.scopes.len(),
                left <= d,
                scope_at(st, st.cur, d as nat) == scope_at(st, h as nat, left as nat),
            decreases left,
        {
            match self.scopes[h].enclosing {
                Option::Some(p) => {
                    proof {
                        assert(scope_wf(st, h as int));
                    }
                    h = p;
                    left = left - 1;
                }
                Option::None => {
                    return Option::None;
                }
            }
        }
        Option::Some(h)
    }
}


/// An assignment updates the nearest binding of the name, and that new
/// value is what a lookup from the same scope then sees; scopes nearer
/// than the binding are untouched.  Where no enclosing scope binds the
/// name, the assignment fails and a lookup finds nothing.
pub proof fn lemma_assignment_updates_nearest_binding(st: StateV, h: nat, name: Seq<u8>, v: ValueV)
    requires
        forall|i: int| 0 <= i < st.scopes.len() ==> #[trigger] scope_wf(st, i),
    ensures
        match assign_scope(st, h, name, v) {
            Option::Some(st2) => {
                &&& lookup_scope(st2, h, name) == Option::Some(v)
                &&& st2.scopes.len() == st.scopes.len()
                &&& forall|k: int| h < k < st.scopes.len() ==> st2.scopes[k] == st.scopes[k]
            },
            Option::None => lookup_scope(st, h, name) == Option::<ValueV>::None,
        },
    decreases h,
{
    if h < st.scopes.len() {
        let sc = st.scopes[h as int];
        if sc.vals.contains_key(name) {
        } else {
            match sc.enclosing {
                Option::Some(p) => {
                    assert(scope_wf(st, h as int));
                    if p < h {
                        lemma_assignment_updates_nearest_binding(st, p, name, v);
                        match assign_scope(st, p, name, v) {
                            Option::Some(st2) => {
                                assert(st2.scopes[h as int] == st.scopes[h as int]);
                            }
                            Option::None => {}
                        }
                    }
                }
                Option::None => {}
            }
        }
    }
}

/// A name defined in a freshly entered scope shadows without touching
/// what any existing scope sees: lookups through handles into the old
/// arena are unchanged.
pub proof fn lemma_shadowing_leaves_outer_bindings(
    st: StateV,
    parent: nat,
    name: Seq<u8>,
    v: ValueV,
    h: nat,
    name2: Seq<u8>,
)
    requires
        forall|i: int| 0 <= i < st.scopes.len() ==> #[trigger] scope_wf(st, i),
        h < st.scopes.len(),
    ensures
        ({
            let st2 = spec_push_child(st, parent);
            let st3 = spec_define(st2, name, v);
            lookup_scope(st3, h, name2) == lookup_scope(st, h, name2)
        }),
    decreases h,
{
    let st2 = spec_push_child(st, parent);
    let st3 = spec_define(st2, name, v);
    assert(st3.scopes[h as int] == st.scopes[h as int]);
    let sc = st.scopes[h as int];
    if !sc.vals.contains_key(name2) {
        match sc.enclosing {
            Option::Some(p) => {
                assert(scope_wf(st, h as int));
                if p < h {
                    lemma_shadowing_leaves_outer_bindings(st, parent, name, v, p, name2);
                }
            }
            Option::None => {}
        }
    }
}

} // verus!
