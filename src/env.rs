//! The environment store: variable bindings, and the search path derived
//! from the `PATH` variable.
use vstd::prelude::*;
use crate::parse::{pair_texts, texts};
use crate::text::slice_text;

verus! {

/// Whether some pair of `p` binds `k`.
pub open spec fn has_key(p: Seq<(Seq<char>, Seq<char>)>, k: Seq<char>) -> bool {
    exists|i: int| 0 <= i < p.len() && #[trigger] p[i].0 == k
}

/// `i` is the position of the last pair of `p` that binds `k`.
pub open spec fn is_last_of(p: Seq<(Seq<char>, Seq<char>)>, k: Seq<char>, i: int) -> bool {
    &&& 0 <= i < p.len()
    &&& p[i].0 == k
    &&& forall|j: int| i < j < p.len() ==> #[trigger] p[j].0 != k
}

/// The bindings that a sequence of assignments makes, applied in order:
/// each key has the value of its last pair.
pub open spec fn bindings(p: Seq<(Seq<char>, Seq<char>)>) -> Map<Seq<char>, Seq<char>> {
    Map::new(
        |k: Seq<char>| has_key(p, k),
        |k: Seq<char>| p[choose|i: int| is_last_of(p, k, i)].1,
    )
}

/// No key occurs twice in `p`.
pub open spec fn keys_unique(p: Seq<(Seq<char>, Seq<char>)>) -> bool {
    forall|i: int, j: int| 0 <= i < j < p.len() ==> #[trigger] p[i].0 != #[trigger] p[j].0
}

/// A key names the search path when it spells `path` in any mix of cases.
pub open spec fn is_path_key(k: Seq<char>) -> bool {
    &&& k.len() == 4
    &&& (k[0] == 'p' || k[0] == 'P')
    &&& (k[1] == 'a' || k[1] == 'A')
    &&& (k[2] == 't' || k[2] == 'T')
    &&& (k[3] == 'h' || k[3] == 'H')
}

/// The directories of a `PATH` value: the pieces between `:`, empty ones
/// included, in order.
pub open spec fn path_dirs(s: Seq<char>) -> Seq<Seq<char>>
    decreases s.len(),
{
    if s.len() == 0 {
        seq![seq![]]
    } else {
        let d = path_dirs(s.drop_last());
        if s.last() == ':' {
            d.push(seq![])
        } else {
            d.update(d.len() - 1, d.last().push(s.last()))
        }
    }
}

/// What an environment store holds: the variables, and the search path.
pub struct EnvModel {
    pub vars: Map<Seq<char>, Seq<char>>,
    pub dirs: Seq<Seq<char>>,
}

impl EnvModel {
    /// The store with no variable and an empty search path.
    pub open spec fn empty() -> EnvModel {
        EnvModel { vars: Map::empty(), dirs: seq![] }
    }

    /// The store after `k` is set to `v`: an assignment to a `PATH` key also
    /// replaces the search path with the directories of `v`.
    pub open spec fn set(self, k: Seq<char>, v: Seq<char>) -> EnvModel {
        EnvModel {
            vars: self.vars.insert(k, v),
            dirs: if is_path_key(k) {
                path_dirs(v)
            } else {
                self.dirs
            },
        }
    }

    /// The store after each pair of `p` is set, in order.
    pub open spec fn set_all(self, p: Seq<(Seq<char>, Seq<char>)>) -> EnvModel
        decreases p.len(),
    {
        if p.len() == 0 {
            self
        } else {
            self.set_all(p.drop_last()).set(p.last().0, p.last().1)
        }
    }

    /// The search path agrees with a `PATH` variable of the store, and is
    /// empty when there is none.
    pub open spec fn consistent(self) -> bool {
        ||| (self.dirs.len() == 0 && forall|k: Seq<char>| #[trigger]
            self.vars.contains_key(k) ==> !is_path_key(k))
        ||| exists|k: Seq<char>|
            #[trigger] self.vars.contains_key(k) && is_path_key(k) && self.dirs == path_dirs(
                self.vars[k],
            )
    }
}

/// The directories of a `PATH` value, split at `:`.
pub fn split_path(s: &str) -> (r: Vec<String>)
    ensures
        texts(r@) == path_dirs(s@),
{
    let n = s.unicode_len();
    let mut out: Vec<String> = Vec::new();
    let mut start: usize = 0;
    let mut i: usize = 0;
    assert(s@.take(0) =~= Seq::<char>::empty());
    assert(texts(out@).push(s@.subrange(0, 0)) =~= seq![seq![]]);
    while i < n
        invariant
            n == s@.len(),
            start <= i <= n,
            path_dirs(s@.take(i as int)) == texts(out@).push(s@.subrange(start as int, i as int)),
        decreases n - i,
    {
        let c = s.get_char(i);
        assert(s@.take(i + 1).drop_last() =~= s@.take(i as int));
        assert(s@.take(i + 1).last() == c);
        let ghost prev = out@;
        if c == ':' {
            let d = slice_text(s, start, i);
            out.push(d);
            assert(texts(out@) =~= texts(prev).push(d@));
            start = i + 1;
            assert(s@.subrange(start as int, i + 1) =~= Seq::<char>::empty());
            assert(path_dirs(s@.take(i + 1)) =~= texts(out@).push(
                s@.subrange(start as int, i + 1),
            ));
        } else {
            assert(s@.subrange(start as int, i + 1) =~= s@.subrange(start as int, i as int).push(
                c,
            ));
            assert(path_dirs(s@.take(i + 1)) =~= texts(out@).push(
                s@.subrange(start as int, i + 1),
            ));
        }
        i = i + 1;
    }
    assert(s@.take(n as int) =~= s@);
    let d = slice_text(s, start, n);
    let ghost prev = out@;
    out.push(d);
    assert(texts(out@) =~= texts(prev).push(d@));
    out
}

/// Whether `k` names the search path.
pub fn path_key(k: &str) -> (r: bool)
    ensures
        r == is_path_key(k@),
{
    if k.unicode_len() != 4 {
        return false;
    }
    let a = k.get_char(0);
    let b = k.get_char(1);
    let c = k.get_char(2);
    let d = k.get_char(3);
    (a == 'p' || a == 'P') && (b == 'a' || b == 'A') && (c == 't' || c == 'T') && (d == 'h'
        || d == 'H')
}


/// The last binding of a key decides its value.
pub proof fn lemma_last_chosen(p: Seq<(Seq<char>, Seq<char>)>, k: Seq<char>, i: int)
    requires
        is_last_of(p, k, i),
    ensures
        (choose|j: int| is_last_of(p, k, j)) == i,
        bindings(p).contains_key(k),
        bindings(p)[k] == p[i].1,
{
    let c = choose|j: int| is_last_of(p, k, j);
    assert(is_last_of(p, k, c));
    if c < i {
        assert(p[i].0 == k);
    } else if c > i {
        assert(p[c].0 == k);
    }
}

/// A bound key has a last binding.
proof fn lemma_has_last(p: Seq<(Seq<char>, Seq<char>)>, k: Seq<char>)
    requires
        has_key(p, k),
    ensures
        exists|i: int| is_last_of(p, k, i),
    decreases p.len(),
{
    let n = p.len() - 1;
    if p[n].0 == k {
        assert(is_last_of(p, k, n));
    } else {
        let q = p.drop_last();
        let w = choose|i: int| 0 <= i < p.len() && #[trigger] p[i].0 == k;
        assert(q[w].0 == k);
        lemma_has_last(q, k);
        let i = choose|i: int| is_last_of(q, k, i);
        assert forall|j: int| i < j < p.len() implies #[trigger] p[j].0 != k by {
            if j < n {
                assert(q[j] == p[j]);
            }
        }
        assert(is_last_of(p, k, i));
    }
}

/// Under unique keys, each pair gives the value of its key.
pub proof fn lemma_unique_binding(p: Seq<(Seq<char>, Seq<char>)>, i: int)
    requires
        keys_unique(p),
        0 <= i < p.len(),
    ensures
        bindings(p).contains_key(p[i].0),
        bindings(p)[p[i].0] == p[i].1,
{
    assert forall|j: int| i < j < p.len() implies #[trigger] p[j].0 != p[i].0 by {}
    lemma_last_chosen(p, p[i].0, i);
}

/// Appending a pair binds its key to its value and leaves the others.
pub proof fn lemma_bindings_push(p: Seq<(Seq<char>, Seq<char>)>, k: Seq<char>, v: Seq<char>)
    ensures
        bindings(p.push((k, v))) == bindings(p).insert(k, v),
{
    let q = p.push((k, v));
    assert(q[p.len() as int].0 == k);
    lemma_last_chosen(q, k, p.len() as int);
    assert forall|x: Seq<char>| x != k implies has_key(q, x) == has_key(p, x) by {
        if has_key(q, x) {
            let w = choose|i: int| 0 <= i < q.len() && #[trigger] q[i].0 == x;
            assert(p[w].0 == x);
        }
        if has_key(p, x) {
            let w = choose|i: int| 0 <= i < p.len() && #[trigger] p[i].0 == x;
            assert(q[w].0 == x);
        }
    }
    assert forall|x: Seq<char>| x != k && has_key(p, x) implies bindings(q)[x] == bindings(p)[x] by {
        lemma_has_last(p, x);
        let i = choose|i: int| is_last_of(p, x, i);
        lemma_last_chosen(p, x, i);
        assert(is_last_of(q, x, i));
        lemma_last_chosen(q, x, i);
    }
    assert(bindings(q) =~= bindings(p).insert(k, v));
}

/// Replacing the value of a pair, under unique keys, rebinds its key and
/// leaves the others.
pub proof fn lemma_bindings_update(p: Seq<(Seq<char>, Seq<char>)>, i: int, v: Seq<char>)
    requires
        keys_unique(p),
        0 <= i < p.len(),
    ensures
        keys_unique(p.update(i, (p[i].0, v))),
        bindings(p.update(i, (p[i].0, v))) == bindings(p).insert(p[i].0, v),
{
    let k = p[i].0;
    let q = p.update(i, (k, v));
    assert forall|a: int, b: int| 0 <= a < b < q.len() implies #[trigger] q[a].0 != #[trigger] q[b].0 by {
        assert(q[a].0 == p[a].0 && q[b].0 == p[b].0);
    }
    lemma_unique_binding(q, i);
    assert forall|x: Seq<char>| has_key(q, x) == has_key(p, x) by {
        if has_key(q, x) {
            let w = choose|j: int| 0 <= j < q.len() && #[trigger] q[j].0 == x;
            assert(p[w].0 == x);
        }
        if has_key(p, x) {
            let w = choose|j: int| 0 <= j < p.len() && #[trigger] p[j].0 == x;
            assert(q[w].0 == x);
        }
    }
    assert forall|x: Seq<char>| x != k && has_key(p, x) implies bindings(q)[x] == bindings(p)[x] by {
        let w = choose|j: int| 0 <= j < p.len() && #[trigger] p[j].0 == x;
        lemma_unique_binding(p, w);
        assert(q[w] == p[w]);
        lemma_unique_binding(q, w);
    }
    assert(bindings(q) =~= bindings(p).insert(k, v));
}

/// Setting a sequence of pairs in order overlays their bindings on the
/// variables.
pub proof fn lemma_set_all_vars(m: EnvModel, p: Seq<(Seq<char>, Seq<char>)>)
    ensures
        m.set_all(p).vars == m.vars.union_prefer_right(bindings(p)),
    decreases p.len(),
{
    if p.len() == 0 {
        assert(bindings(p) =~= Map::<Seq<char>, Seq<char>>::empty());
        assert(m.vars.union_prefer_right(bindings(p)) =~= m.vars);
    } else {
        let q = p.drop_last();
        lemma_set_all_vars(m, q);
        assert(q.push(p.last()) =~= p);
        lemma_bindings_push(q, p.last().0, p.last().1);
        assert(m.vars.union_prefer_right(bindings(p)) =~= m.vars.union_prefer_right(
            bindings(q),
        ).insert(p.last().0, p.last().1));
    }
}


/// Variable bindings with unique keys, and the search path derived from the
/// last assignment to a `PATH` key.
pub struct EnvStore {
    vars: Vec<(String, String)>,
    search_path: Vec<String>,
    path_at: Option<usize>,
}

impl View for EnvStore {
    type V = EnvModel;

    closed spec fn view(&self) -> EnvModel {
        EnvModel { vars: bindings(pair_texts(self.vars@)), dirs: texts(self.search_path@) }
    }
}

impl EnvStore {
    /// Keys are unique, and the search path is derived from the `PATH`
    /// binding that `path_at` marks, or empty where there is none.
    pub closed spec fn wf(&self) -> bool {
        &&& keys_unique(pair_texts(self.vars@))
        &&& match self.path_at {
            Some(i) => {
                &&& i < self.vars@.len()
                &&& is_path_key(self.vars@[i as int].0@)
                &&& texts(self.search_path@) == path_dirs(self.vars@[i as int].1@)
            },
            None => {
                &&& self.search_path@.len() == 0
                &&& forall|i: int|
                    0 <= i < self.vars@.len() ==> !is_path_key(#[trigger] self.vars@[i].0@)
            },
        }
    }

    /// A well-formed store keeps its search path consistent with its `PATH`
    /// variable: there is no other way to change it.
    pub proof fn lemma_consistent(&self)
        requires
            self.wf(),
        ensures
            self@.consistent(),
    {
        let p = pair_texts(self.vars@);
        match self.path_at {
            Some(i) => {
                lemma_unique_binding(p, i as int);
                assert(self@.vars.contains_key(p[i as int].0));
            },
            None => {
                assert forall|k: Seq<char>| #[trigger] self@.vars.contains_key(k) implies !is_path_key(k) by {
                    let w = choose|j: int| 0 <= j < p.len() && #[trigger] p[j].0 == k;
                    assert(p[w].0 == self.vars@[w].0@);
                }
            },
        }
    }

    /// An empty store.
    pub fn new() -> (r: EnvStore)
        ensures
            r.wf(),
            r@ == EnvModel::empty(),
    {
        let r = EnvStore { vars: Vec::new(), search_path: Vec::new(), path_at: None };
        assert(r@.vars =~= Map::<Seq<char>, Seq<char>>::empty());
        assert(r@.dirs =~= Seq::<Seq<char>>::empty());
        r
    }

    /// The position of `key` among the bindings.
    fn find(&self, key: &str) -> (r: Option<usize>)
        requires
            self.wf(),
        ensures
            match r {
                Some(i) => i < self.vars@.len() && self.vars@[i as int].0@ == key@,
                None => !self@.vars.contains_key(key@),
            },
    {
        let n = self.vars.len();
        let mut i: usize = 0;
        while i < n
            invariant
                n == self.vars@.len(),
                i <= n,
                forall|j: int| 0 <= j < i ==> #[trigger] self.vars@[j].0@ != key@,
            decreases n - i,
        {
            if crate::text::same_text(self.vars[i].0.as_str(), key) {
                return Some(i);
            }
            i = i + 1;
        }
        proof {
            let p = pair_texts(self.vars@);
            if self@.vars.contains_key(key@) {
                let w = choose|j: int| 0 <= j < p.len() && #[trigger] p[j].0 == key@;
                assert(p[w].0 == self.vars@[w].0@);
            }
        }
        None
    }

    /// The value bound to `key`, matched exactly.
    pub fn get(&self, key: &str) -> (r: Option<String>)
        requires
            self.wf(),
        ensures
            r is Some <==> self@.vars.contains_key(key@),
            r matches Some(v) ==> v@ == self@.vars[key@],
    {
        match self.find(key) {
            Some(i) => {
                proof {
                    lemma_unique_binding(pair_texts(self.vars@), i as int);
                }
                Some(self.vars[i].1.clone())
            },
            None => None,
        }
    }

    /// Binds `key` to `value`, replacing an earlier value; an assignment to a
    /// `PATH` key also replaces the search path with the directories of
    /// `value`.
    pub fn set(&mut self, key: String, value: String)
        requires
            old(self).wf(),
        ensures
            final(self).wf(),
            final(self)@ == old(self)@.set(key@, value@),
    {
        let is_path = path_key(key.as_str());
        let ghost p = pair_texts(self.vars@);
        let ghost k = key@;
        let ghost v = value@;
        let at: usize;
        match self.find(key.as_str()) {
            Some(i) => {
                proof {
                    lemma_bindings_update(p, i as int, v);
                }
                self.vars.set(i, (key, value));
                assert(pair_texts(self.vars@) =~= p.update(i as int, (p[i as int].0, v)));
                at = i;
            },
            None => {
                proof {
                    lemma_bindings_push(p, k, v);
                    assert forall|a: int, b: int|
                        0 <= a < b < p.len() + 1 implies #[trigger] p.push((k, v))[a].0
                        != #[trigger] p.push((k, v))[b].0 by {
                        if b == p.len() {
                            assert(p[a].0 == p.push((k, v))[a].0);
                        }
                    }
                }
                at = self.vars.len();
                self.vars.push((key, value));
                assert(pair_texts(self.vars@) =~= p.push((k, v)));
            },
        }
        if is_path {
            self.search_path = split_path(self.vars[at].1.as_str());
            self.path_at = Some(at);
        }
        proof {
            if !is_path {
                match self.path_at {
                    Some(j) => {
                        assert(self.vars@[j as int] == old(self).vars@[j as int]);
                    },
                    None => {
                        assert forall|j: int| 0 <= j < self.vars@.len() implies !is_path_key(
                            #[trigger] self.vars@[j].0@,
                        ) by {
                            if j != at {
                                assert(self.vars@[j] == old(self).vars@[j]);
                            }
                        }
                    },
                }
            }
        }
    }

    /// Sets each pair of `pairs` in order.
    pub fn set_each(&mut self, pairs: &Vec<(String, String)>)
        requires
            old(self).wf(),
        ensures
            final(self).wf(),
            final(self)@ == old(self)@.set_all(pair_texts(pairs@)),
    {
        let n = pairs.len();
        let mut i: usize = 0;
        while i < n
            invariant
                n == pairs@.len(),
                i <= n,
                self.wf(),
                self@ == old(self)@.set_all(pair_texts(pairs@).take(i as int)),
            decreases n - i,
        {
            let ghost q = pair_texts(pairs@);
            self.set(pairs[i].0.clone(), pairs[i].1.clone());
            assert(q.take(i + 1).drop_last() =~= q.take(i as int));
            i = i + 1;
        }
        assert(pair_texts(pairs@).take(n as int) =~= pair_texts(pairs@));
    }

    /// A store seeded from inherited bindings, set in order.
    pub fn from_pairs(pairs: &Vec<(String, String)>) -> (r: EnvStore)
        ensures
            r.wf(),
            r@ == EnvModel::empty().set_all(pair_texts(pairs@)),
    {
        let mut r = EnvStore::new();
        r.set_each(pairs);
        r
    }

    /// An independent copy of the store.
    pub fn duplicate(&self) -> (r: EnvStore)
        requires
            self.wf(),
        ensures
            r.wf(),
            r@ == self@,
    {
        let n = self.vars.len();
        let mut vars: Vec<(String, String)> = Vec::new();
        let mut i: usize = 0;
        while i < n
            invariant
                n == self.vars@.len(),
                i <= n,
                vars@ == self.vars@.take(i as int),
            decreases n - i,
        {
            vars.push((self.vars[i].0.clone(), self.vars[i].1.clone()));
            assert(vars@ =~= self.vars@.take(i + 1));
            i = i + 1;
        }
        assert(vars@ =~= self.vars@);
        let m = self.search_path.len();
        let mut search_path: Vec<String> = Vec::new();
        let mut j: usize = 0;
        while j < m
            invariant
                m == self.search_path@.len(),
                j <= m,
                search_path@ == self.search_path@.take(j as int),
            decreases m - j,
        {
            search_path.push(self.search_path[j].clone());
            assert(search_path@ =~= self.search_path@.take(j + 1));
            j = j + 1;
        }
        assert(search_path@ =~= self.search_path@);
        EnvStore { vars, search_path, path_at: self.path_at }
    }

    /// The effective environment of one invocation: this store with the
    /// temporary assignments `temps` set over it, in order. The store itself
    /// is left as it is.
    pub fn overlay(&self, temps: &Vec<(String, String)>) -> (r: EnvStore)
        requires
            self.wf(),
        ensures
            r.wf(),
            r@ == self@.set_all(pair_texts(temps@)),
            r@.vars == self@.vars.union_prefer_right(bindings(pair_texts(temps@))),
    {
        let mut r = self.duplicate();
        r.set_each(temps);
        proof {
            lemma_set_all_vars(self@, pair_texts(temps@));
        }
        r
    }

    /// Every binding once, as key/value pairs.
    pub fn snapshot(&self) -> (r: Vec<(String, String)>)
        requires
            self.wf(),
        ensures
            keys_unique(pair_texts(r@)),
            bindings(pair_texts(r@)) == self@.vars,
    {
        let d = self.duplicate();
        d.vars
    }

    /// The search path, in order of priority.
    pub fn search_path(&self) -> (r: &Vec<String>)
        ensures
            texts(r@) == self@.dirs,
    {
        &self.search_path
    }
}

} // verus!
