use crate::parse::{fun_view, FunView, LangFunction};
use vstd::prelude::*;

verus! {

broadcast use {vstd::std_specs::vec::group_vec_axioms, vstd::seq::group_seq_axioms};

// ---------------------------------------------------------------------------
// Association tables.
//
// The environment's two tables are vectors of pairs with pairwise distinct
// keys; their mathematical content is a map, with an entry nearer the end
// winning (which the uniqueness invariant makes moot).
// ---------------------------------------------------------------------------
/// Key and value views of a variable table.
pub open spec fn var_pairs_view(s: Seq<(String, u64)>) -> Seq<(Seq<char>, u64)> {
    s.map_values(|p: (String, u64)| (p.0@, p.1))
}

/// Key and value views of a function table.
pub open spec fn fun_pairs_view(s: Seq<(String, LangFunction)>) -> Seq<(Seq<char>, FunView)> {
    s.map_values(|p: (String, LangFunction)| (p.0@, fun_view(p.1)))
}

/// The map an association list denotes.
pub open spec fn assoc_map<V>(s: Seq<(Seq<char>, V)>) -> Map<Seq<char>, V>
    decreases s.len(),
{
    if s.len() == 0 {
        Map::empty()
    } else {
        assoc_map(s.drop_last()).insert(s.last().0, s.last().1)
    }
}

/// Pairwise distinct keys.
pub open spec fn keys_unique<V>(s: Seq<(Seq<char>, V)>) -> bool {
    forall|i: int, j: int| 0 <= i < j < s.len() ==> (#[trigger] s[i]).0 != (#[trigger] s[j]).0
}

/// What the association map holds: exactly the listed keys, each with the
/// value listed beside it (under key uniqueness).
pub proof fn lemma_assoc_map<V>(s: Seq<(Seq<char>, V)>)
    ensures
        forall|i: int| 0 <= i < s.len() ==> assoc_map(s).contains_key((#[trigger] s[i]).0),
        forall|k: Seq<char>| #[trigger]
            assoc_map(s).contains_key(k) ==> exists|i: int|
                0 <= i < s.len() && (#[trigger] s[i]).0 == k,
        keys_unique(s) ==> forall|i: int|
            0 <= i < s.len() ==> assoc_map(s).index((#[trigger] s[i]).0) == s[i].1,
        assoc_map(s).dom().finite(),
        keys_unique(s) ==> assoc_map(s).dom().len() == s.len(),
    decreases s.len(),
{
    if s.len() == 0 {
    } else {
        let pre = s.drop_last();
        lemma_assoc_map(pre);
        assert forall|k: Seq<char>| #[trigger]
            assoc_map(s).contains_key(k) implies exists|i: int|
            0 <= i < s.len() && (#[trigger] s[i]).0 == k by {
            if k == s.last().0 {
                assert(s[s.len() - 1].0 == k);
            } else {
                let i = choose|i: int| 0 <= i < pre.len() && (#[trigger] pre[i]).0 == k;
                assert(s[i].0 == k);
            }
        }
        assert forall|i: int| 0 <= i < s.len() implies assoc_map(s).contains_key(
            (#[trigger] s[i]).0,
        ) by {
            if i < s.len() - 1 {
                assert(pre[i].0 == s[i].0);
                assert(assoc_map(pre).contains_key(pre[i].0));
            }
        }
        if keys_unique(s) {
            assert(keys_unique(pre)) by {
                assert forall|i: int, j: int| 0 <= i < j < pre.len() implies (#[trigger] pre[i]).0
                    != (#[trigger] pre[j]).0 by {
                    assert(s[i].0 != s[j].0);
                }
            }
            assert forall|i: int| 0 <= i < s.len() implies assoc_map(s).index(
                (#[trigger] s[i]).0,
            ) == s[i].1 by {
                if i < s.len() - 1 {
                    assert(pre[i] == s[i]);
                    assert(s[i].0 != s.last().0);
                    assert(assoc_map(pre).index(pre[i].0) == pre[i].1);
                }
            }
            assert(!assoc_map(pre).contains_key(s.last().0)) by {
                if assoc_map(pre).contains_key(s.last().0) {
                    let i = choose|i: int|
                        0 <= i < pre.len() && (#[trigger] pre[i]).0 == s.last().0;
                    assert(s[i].0 == s[s.len() - 1].0);
                }
            }
            assert(assoc_map(s).dom() =~= assoc_map(pre).dom().insert(s.last().0));
        }
    }
}

/// Updating the pair at a position whose key is already there replaces just
/// that key's value in the map.
pub proof fn lemma_assoc_update<V>(s: Seq<(Seq<char>, V)>, ix: int, k: Seq<char>, v: V)
    requires
        keys_unique(s),
        0 <= ix < s.len(),
        s[ix].0 == k,
    ensures
        assoc_map(s.update(ix, (k, v))) == assoc_map(s).insert(k, v),
        keys_unique(s.update(ix, (k, v))),
{
    let s2 = s.update(ix, (k, v));
    assert(keys_unique(s2)) by {
        assert forall|i: int, j: int| 0 <= i < j < s2.len() implies (#[trigger] s2[i]).0 != (
        #[trigger] s2[j]).0 by {
            assert(s[i].0 != s[j].0);
        }
    }
    lemma_assoc_map(s);
    lemma_assoc_map(s2);
    assert forall|kk: Seq<char>|
        assoc_map(s2).contains_key(kk) == assoc_map(s).insert(k, v).contains_key(kk) by {
        if assoc_map(s2).contains_key(kk) {
            let i = choose|i: int| 0 <= i < s2.len() && (#[trigger] s2[i]).0 == kk;
            if i != ix {
                assert(s[i].0 == kk);
            }
        }
        if assoc_map(s).contains_key(kk) {
            let i = choose|i: int| 0 <= i < s.len() && (#[trigger] s[i]).0 == kk;
            if i != ix {
                assert(s2[i].0 == kk);
            } else {
                assert(s2[ix].0 == kk);
            }
        }
        if kk == k {
            assert(s2[ix].0 == kk);
        }
    }
    assert forall|kk: Seq<char>| #[trigger]
        assoc_map(s2).contains_key(kk) implies assoc_map(s2)[kk] == assoc_map(s).insert(k, v)[kk] by {
        let i = choose|i: int| 0 <= i < s2.len() && (#[trigger] s2[i]).0 == kk;
        if kk == k {
            assert(assoc_map(s2)[s2[ix].0] == s2[ix].1);
        } else {
            assert(i != ix);
            assert(s[i].0 == kk);
            assert(assoc_map(s2)[s2[i].0] == s2[i].1);
            assert(assoc_map(s)[s[i].0] == s[i].1);
        }
    }
    assert(assoc_map(s2) =~= assoc_map(s).insert(k, v));
}

/// Appending a pair whose key is fresh inserts it into the map.
pub proof fn lemma_assoc_push<V>(s: Seq<(Seq<char>, V)>, k: Seq<char>, v: V)
    requires
        keys_unique(s),
        forall|i: int| 0 <= i < s.len() ==> (#[trigger] s[i]).0 != k,
    ensures
        assoc_map(s.push((k, v))) == assoc_map(s).insert(k, v),
        keys_unique(s.push((k, v))),
{
    let s2 = s.push((k, v));
    assert(s2.drop_last() =~= s);
    assert(assoc_map(s2) == assoc_map(s).insert(k, v));
    assert forall|i: int, j: int| 0 <= i < j < s2.len() implies (#[trigger] s2[i]).0 != (
    #[trigger] s2[j]).0 by {
        if j < s2.len() - 1 {
            assert(s[i].0 != s[j].0);
        } else {
            assert(s2[i].0 == s[i].0);
        }
    }
}

// ---------------------------------------------------------------------------
// Variable tables.
// ---------------------------------------------------------------------------
/// The map a variable table holds.
pub open spec fn vars_map(s: Seq<(String, u64)>) -> Map<Seq<char>, u64> {
    assoc_map(var_pairs_view(s))
}

/// Well-formedness of a variable table: no key twice.
pub open spec fn vars_wf(s: Seq<(String, u64)>) -> bool {
    keys_unique(var_pairs_view(s))
}

/// Looks a name up in a variable table.
pub fn vars_get(table: &Vec<(String, u64)>, name: &String) -> (r: Option<u64>)
    requires
        vars_wf(table@),
    ensures
        match r {
            Some(v) => vars_map(table@).contains_key(name@) && vars_map(table@)[name@] == v,
            None => !vars_map(table@).contains_key(name@),
        },
{
    proof {
        lemma_assoc_map(var_pairs_view(table@));
    }
    let n = table.len();
    let mut i: usize = 0;
    while i < n
        invariant
            vars_wf(table@),
            n == table@.len(),
            i <= n,
            forall|j: int| 0 <= j < i ==> (#[trigger] var_pairs_view(table@)[j]).0 != name@,
        decreases n - i,
    {
        if table[i].0 == *name {
            proof {
                lemma_assoc_map(var_pairs_view(table@));
                let pv = var_pairs_view(table@);
                assert(pv[i as int].0 == name@ && pv[i as int].1 == table@[i as int].1);
                assert(vars_map(table@).contains_key(pv[i as int].0) && vars_map(table@)[pv[
                    i as int
                ].0] == pv[i as int].1);
            }
            return Some(table[i].1);
        }
        proof {
            assert(var_pairs_view(table@)[i as int].0 == table@[i as int].0@);
        }
        i = i + 1;
    }
    None
}

/// Binds a name in a variable table, replacing any previous binding.
pub fn vars_set(table: &mut Vec<(String, u64)>, name: &String, value: u64)
    requires
        vars_wf(old(table)@),
    ensures
        vars_wf(final(table)@),
        vars_map(final(table)@) == vars_map(old(table)@).insert(name@, value),
{
    let n = table.len();
    let mut i: usize = 0;
    while i < n
        invariant
            n == table@.len(),
            i <= n,
            vars_wf(table@),
            table@ == old(table)@,
            forall|j: int| 0 <= j < i ==> (#[trigger] var_pairs_view(table@)[j]).0 != name@,
        decreases n - i,
    {
        if table[i].0 == *name {
            let ghost before = var_pairs_view(table@);
            table[i] = (name.clone(), value);
            proof {
                assert(var_pairs_view(table@) =~= before.update(i as int, (name@, value)));
                lemma_assoc_update(before, i as int, name@, value);
            }
            return ;
        }
        proof {
            assert(var_pairs_view(table@)[i as int].0 == table@[i as int].0@);
        }
        i = i + 1;
    }
    let ghost before = var_pairs_view(table@);
    table.push((name.clone(), value));
    proof {
        assert(var_pairs_view(table@) =~= before.push((name@, value)));
        lemma_assoc_push(before, name@, value);
    }
}

/// A fresh copy of a variable table.
pub fn vars_snapshot(table: &Vec<(String, u64)>) -> (r: Vec<(String, u64)>)
    ensures
        var_pairs_view(r@) == var_pairs_view(table@),
{
    let mut out: Vec<(String, u64)> = Vec::new();
    let mut i: usize = 0;
    while i < table.len()
        invariant
            i <= table@.len(),
            var_pairs_view(out@) =~= var_pairs_view(table@).subrange(0, i as int),
        decreases table@.len() - i,
    {
        let ghost before = var_pairs_view(out@);
        let name = table[i].0.clone();
        let ghost nv = name@;
        let value = table[i].1;
        out.push((name, value));
        proof {
            assert(var_pairs_view(out@) =~= before.push((nv, value)));
            assert(var_pairs_view(out@) =~= var_pairs_view(table@).subrange(0, i + 1));
        }
        i = i + 1;
    }
    proof {
        assert(var_pairs_view(table@).subrange(0, table@.len() as int) =~= var_pairs_view(table@));
    }
    out
}

// ---------------------------------------------------------------------------
// The environment.
// ---------------------------------------------------------------------------
/// The shared store of variable bindings and function definitions that
/// evaluation consults and updates.
pub struct Environment {
    pub variables: Vec<(String, u64)>,
    pub functions: Vec<(String, LangFunction)>,
}

impl Environment {
    /// The variable bindings, as a map from names to value bit patterns.
    pub open spec fn vars(&self) -> Map<Seq<char>, u64> {
        vars_map(self.variables@)
    }

    /// The function definitions, as a map from names to functions.
    pub open spec fn funcs(&self) -> Map<Seq<char>, FunView> {
        assoc_map(fun_pairs_view(self.functions@))
    }

    /// Both tables keyed without repetition.
    pub open spec fn wf(&self) -> bool {
        vars_wf(self.variables@) && keys_unique(fun_pairs_view(self.functions@))
    }

    /// A fresh, empty environment.
    pub fn new() -> (r: Environment)
        ensures
            r.wf(),
            r.vars() == Map::<Seq<char>, u64>::empty(),
            r.funcs() == Map::<Seq<char>, FunView>::empty(),
    {
        let r = Environment { variables: Vec::new(), functions: Vec::new() };
        proof {
            assert(var_pairs_view(r.variables@) =~= Seq::<(Seq<char>, u64)>::empty());
            assert(fun_pairs_view(r.functions@) =~= Seq::<(Seq<char>, FunView)>::empty());
        }
        r
    }

    /// The value bound to a variable, if any.
    pub fn get_variable(&self, name: &String) -> (r: Option<u64>)
        requires
            self.wf(),
        ensures
            match r {
                Some(v) => self.vars().contains_key(name@) && self.vars()[name@] == v,
                None => !self.vars().contains_key(name@),
            },
    {
        vars_get(&self.variables, name)
    }

    /// Binds a variable, replacing any previous binding.
    pub fn set_variable(&mut self, name: &String, value: u64)
        requires
            old(self).wf(),
        ensures
            final(self).wf(),
            final(self).vars() == old(self).vars().insert(name@, value),
            final(self).funcs() == old(self).funcs(),
            final(self).functions@ == old(self).functions@,
    {
        vars_set(&mut self.variables, name, value)
    }

    /// Whether a function of that name is defined.
    pub fn has_function(&self, name: &String) -> (r: bool)
        requires
            self.wf(),
        ensures
            r == self.funcs().contains_key(name@),
    {
        proof {
            lemma_assoc_map(fun_pairs_view(self.functions@));
        }
        let n = self.functions.len();
        let mut i: usize = 0;
        while i < n
            invariant
                n == self.functions@.len(),
                i <= n,
                forall|j: int|
                    0 <= j < i ==> (#[trigger] fun_pairs_view(self.functions@)[j]).0 != name@,
            decreases n - i,
        {
            if self.functions[i].0 == *name {
                proof {
                    lemma_assoc_map(fun_pairs_view(self.functions@));
                    let pv = fun_pairs_view(self.functions@);
                    assert(pv[i as int].0 == name@);
                    assert(self.funcs().contains_key(pv[i as int].0));
                }
                return true;
            }
            proof {
                assert(fun_pairs_view(self.functions@)[i as int].0 == self.functions@[i as int].0@);
            }
            i = i + 1;
        }
        false
    }

    /// A fresh copy of the stored function of that name, if any.
    pub fn get_function(&self, name: &String) -> (r: Option<LangFunction>)
        requires
            self.wf(),
        ensures
            match r {
                Some(f) => self.funcs().contains_key(name@) && fun_view(f) == self.funcs()[name@],
                None => !self.funcs().contains_key(name@),
            },
    {
        proof {
            lemma_assoc_map(fun_pairs_view(self.functions@));
        }
        let n = self.functions.len();
        let mut i: usize = 0;
        while i < n
            invariant
                keys_unique(fun_pairs_view(self.functions@)),
                n == self.functions@.len(),
                i <= n,
                forall|j: int|
                    0 <= j < i ==> (#[trigger] fun_pairs_view(self.functions@)[j]).0 != name@,
            decreases n - i,
        {
            if self.functions[i].0 == *name {
                proof {
                    lemma_assoc_map(fun_pairs_view(self.functions@));
                    let pv = fun_pairs_view(self.functions@);
                    assert(pv[i as int].0 == name@);
                    assert(pv[i as int].1 == fun_view(self.functions@[i as int].1));
                    assert(self.funcs().contains_key(pv[i as int].0) && self.funcs()[pv[
                        i as int
                    ].0] == pv[i as int].1);
                }
                return Some(self.functions[i].1.duplicate());
            }
            proof {
                assert(fun_pairs_view(self.functions@)[i as int].0 == self.functions@[i as int].0@);
            }
            i = i + 1;
        }
        None
    }

    /// Stores a function under a name, replacing any previous definition of
    /// that name in place.
    pub fn set_function(&mut self, name: &String, f: LangFunction)
        requires
            old(self).wf(),
        ensures
            final(self).wf(),
            final(self).funcs() == old(self).funcs().insert(name@, fun_view(f)),
            final(self).vars() == old(self).vars(),
            final(self).variables@ == old(self).variables@,
            final(self).functions@.len() == if old(self).funcs().contains_key(name@) {
                old(self).functions@.len()
            } else {
                old(self).functions@.len() + 1
            },
    {
        proof {
            lemma_assoc_map(fun_pairs_view(self.functions@));
        }
        let ghost fv = fun_view(f);
        let n = self.functions.len();
        let mut i: usize = 0;
        while i < n
            invariant
                n == self.functions@.len(),
                i <= n,
                self.wf(),
                *self == *old(self),
                fun_view(f) == fv,
                forall|j: int|
                    0 <= j < i ==> (#[trigger] fun_pairs_view(self.functions@)[j]).0 != name@,
            decreases n - i,
        {
            if self.functions[i].0 == *name {
                let ghost before = fun_pairs_view(self.functions@);
                proof {
                    assert(before[i as int].0 == name@);
                }
                self.functions[i] = (name.clone(), f);
                proof {
                    lemma_assoc_map(before);
                    assert(fun_pairs_view(self.functions@) =~= before.update(
                        i as int,
                        (name@, fv),
                    ));
                    lemma_assoc_update(before, i as int, name@, fv);
                    assert(assoc_map(before).contains_key(before[i as int].0));
                }
                return ;
            }
            proof {
                assert(fun_pairs_view(self.functions@)[i as int].0 == self.functions@[i as int].0@);
            }
            i = i + 1;
        }
        let ghost before = fun_pairs_view(self.functions@);
        self.functions.push((name.clone(), f));
        proof {
            assert(fun_pairs_view(self.functions@) =~= before.push((name@, fv)));
            lemma_assoc_push(before, name@, fv);
            lemma_assoc_map(before);
        }
    }

    /// How many functions are defined.
    pub fn function_count(&self) -> (r: usize)
        requires
            self.wf(),
        ensures
            r == self.funcs().dom().len(),
            r == self.functions@.len(),
    {
        proof {
            lemma_assoc_map(fun_pairs_view(self.functions@));
        }
        self.functions.len()
    }
}

} // verus!
