//! The executable resolver: the first directory of the search path whose
//! listing holds the name wins.
use vstd::prelude::*;
use crate::parse::texts;
use crate::text::same_text;

verus! {

/// The path of `name` inside directory `d`: `name` alone for an empty
/// directory, joined by one `/` otherwise.
pub open spec fn join_dir(d: Seq<char>, name: Seq<char>) -> Seq<char> {
    if d.len() == 0 {
        name
    } else if d.last() == '/' {
        d + name
    } else {
        d + seq!['/'] + name
    }
}

/// Whether a directory listing holds `name`; a directory that could not be
/// listed (`None`) holds nothing.
pub open spec fn listed(l: Option<Vec<String>>, name: Seq<char>) -> bool {
    l is Some && texts(l->0@).contains(name)
}

/// `i` is the first directory whose listing holds `name`.
pub open spec fn first_hit(ls: Seq<Option<Vec<String>>>, name: Seq<char>, i: int) -> bool {
    &&& 0 <= i < ls.len()
    &&& listed(ls[i], name)
    &&& forall|j: int| 0 <= j < i ==> !#[trigger] listed(ls[j], name)
}

/// Joins a directory and a file name.
pub fn join_path(d: &str, name: &str) -> (r: String)
    ensures
        r@ == join_dir(d@, name@),
{
    let n = d.unicode_len();
    if n == 0 {
        return String::from_str(name);
    }
    let mut r = String::from_str(d);
    if d.get_char(n - 1) != '/' {
        r.append("/");
        proof {
            reveal_strlit("/");
        }
        assert(r@ =~= d@ + seq!['/']);
    }
    r.append(name);
    r
}

/// Whether a listing holds `name`.
fn holds(l: &Option<Vec<String>>, name: &str) -> (r: bool)
    ensures
        r == listed(*l, name@),
{
    match l.as_ref() {
        None => false,
        Some(v) => {
            let n = v.len();
            let mut i: usize = 0;
            while i < n
                invariant
                    l is Some,
                    l->0@ == v@,
                    n == v@.len(),
                    i <= n,
                    forall|j: int| 0 <= j < i ==> #[trigger] v@[j]@ != name@,
                decreases n - i,
            {
                if same_text(v[i].as_str(), name) {
                    assert(texts(v@)[i as int] == name@);
                    assert(texts(v@).contains(name@));
                    return true;
                }
                i = i + 1;
            }
            assert forall|j: int| 0 <= j < n implies #[trigger] texts(v@)[j] != name@ by {
                assert(texts(v@)[j] == v@[j]@);
            }
            false
        },
    }
}

/// Resolves `name` against the directories `dirs`, given what each one
/// lists (`None` for one that could not be listed): the path of `name` in
/// the first directory that holds it, or `None` when none does.
pub fn resolve(name: &str, dirs: &Vec<String>, listings: &Vec<Option<Vec<String>>>) -> (r: Option<
    String,
>)
    requires
        dirs@.len() == listings@.len(),
    ensures
        match r {
            Some(p) => exists|i: int|
                first_hit(listings@, name@, i) && p@ == join_dir(#[trigger] dirs@[i]@, name@),
            None => forall|i: int| 0 <= i < listings@.len() ==> !#[trigger] listed(listings@[i], name@),
        },
{
    let n = listings.len();
    let mut i: usize = 0;
    while i < n
        invariant
            n == listings@.len(),
            n == dirs@.len(),
            i <= n,
            forall|j: int| 0 <= j < i ==> !#[trigger] listed(listings@[j], name@),
        decreases n - i,
    {
        if holds(&listings[i], name) {
            let p = join_path(dirs[i].as_str(), name);
            assert(first_hit(listings@, name@, i as int));
            return Some(p);
        }
        i = i + 1;
    }
    None
}

/// Only one directory is the first to hold a name.
pub proof fn lemma_first_hit_unique(ls: Seq<Option<Vec<String>>>, name: Seq<char>, i: int, j: int)
    requires
        first_hit(ls, name, i),
        first_hit(ls, name, j),
    ensures
        i == j,
{
    if i < j {
        assert(listed(ls[i], name));
    } else if j < i {
        assert(listed(ls[j], name));
    }
}

/// The first directory that holds a name wins over every later one.
pub proof fn lemma_first_directory_wins(
    ls: Seq<Option<Vec<String>>>,
    name: Seq<char>,
    i: int,
    j: int,
    k: int,
)
    requires
        0 <= i < j < ls.len(),
        listed(ls[i], name),
        listed(ls[j], name),
        forall|m: int| 0 <= m < i ==> !#[trigger] listed(ls[m], name),
        first_hit(ls, name, k),
    ensures
        k == i,
{
    if k < i {
        assert(!listed(ls[k], name));
    } else if k > i {
        assert(!listed(ls[i], name));
    }
}

} // verus!
