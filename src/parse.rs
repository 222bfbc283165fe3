//! The command parser: a line becomes its words, then leading `KEY=VALUE`
//! assignments, an executable name and the arguments.
use vstd::prelude::*;
use crate::text::{has_char, is_space, is_space_char, find_char, slice_text};

verus! {

/// The views of a sequence of strings.
pub open spec fn texts(v: Seq<String>) -> Seq<Seq<char>> {
    v.map_values(|t: String| t@)
}

/// A copy of a sequence of strings.
pub fn copy_texts(v: &Vec<String>) -> (r: Vec<String>)
    ensures
        r@ == v@,
{
    let n = v.len();
    let mut r: Vec<String> = Vec::new();
    let mut i: usize = 0;
    while i < n
        invariant
            n == v@.len(),
            i <= n,
            r@ == v@.take(i as int),
        decreases n - i,
    {
        r.push(v[i].clone());
        assert(r@ =~= v@.take(i + 1));
        i = i + 1;
    }
    assert(r@ =~= v@);
    r
}

/// Reads `s` from the left: the words completed so far, and the word under
/// way (empty between words). A word is a maximal run of non-space characters.
pub open spec fn scan(s: Seq<char>) -> (Seq<Seq<char>>, Seq<char>)
    decreases s.len(),
{
    if s.len() == 0 {
        (seq![], seq![])
    } else {
        let (done, cur) = scan(s.drop_last());
        if is_space(s.last()) {
            if cur.len() > 0 {
                (done.push(cur), seq![])
            } else {
                (done, seq![])
            }
        } else {
            (done, cur.push(s.last()))
        }
    }
}

/// The words of a line, in order.
pub open spec fn words(s: Seq<char>) -> Seq<Seq<char>> {
    let (done, cur) = scan(s);
    if cur.len() > 0 {
        done.push(cur)
    } else {
        done
    }
}

/// `t` is `k=v` with `k` free of `=`: the token split at its first `=`.
pub open spec fn splits_at_first_eq(t: Seq<char>, k: Seq<char>, v: Seq<char>) -> bool {
    !has_char(k, '=') && t == k + seq!['='] + v
}

/// The words of `line`, split at whitespace; runs of whitespace separate
/// words and yield no empty word.
pub fn split_words(line: &str) -> (r: Vec<String>)
    ensures
        texts(r@) == words(line@),
{
    let n = line.unicode_len();
    let mut out: Vec<String> = Vec::new();
    let mut start: usize = 0;
    let mut i: usize = 0;
    while i < n
        invariant
            n == line@.len(),
            start <= i <= n,
            scan(line@.take(i as int)) == (texts(out@), line@.subrange(start as int, i as int)),
        decreases n - i,
    {
        let c = line.get_char(i);
        let ghost prev = out@;
        assert(line@.take(i + 1).drop_last() =~= line@.take(i as int));
        assert(line@.take(i + 1).last() == c);
        if is_space_char(c) {
            if start < i {
                let w = slice_text(line, start, i);
                out.push(w);
                assert(texts(out@) =~= texts(prev).push(w@));
            }
            start = i + 1;
            assert(line@.subrange(start as int, i + 1) =~= Seq::<char>::empty());
        } else {
            assert(line@.subrange(start as int, i + 1) =~= line@.subrange(start as int, i as int).push(c));
        }
        i = i + 1;
    }
    assert(line@.take(n as int) =~= line@);
    if start < n {
        let w = slice_text(line, start, n);
        let ghost prev = out@;
        out.push(w);
        assert(texts(out@) =~= texts(prev).push(w@));
    }
    out
}

/// Splits an assignment token at its first `=`: `Some((key, value))`, where
/// the value may itself hold `=`; `None` when the token has no `=`.
pub fn split_assignment(token: &str) -> (r: Option<(String, String)>)
    ensures
        match r {
            Some((k, v)) => splits_at_first_eq(token@, k@, v@),
            None => !has_char(token@, '='),
        },
{
    match find_char(token, '=') {
        None => None,
        Some(p) => {
            let n = token.unicode_len();
            let k = slice_text(token, 0, p);
            let v = slice_text(token, p + 1, n);
            assert(token@.take(p as int) =~= k@);
            assert(token@ =~= k@ + seq!['='] + v@);
            Some((k, v))
        },
    }
}

/// One parsed command line.
#[derive(Clone, Debug, PartialEq, Eq)]
pub struct Invocation {
    /// Leading `KEY=VALUE` words, split at their first `=`, in order.
    pub assignments: Vec<(String, String)>,
    /// The first word without `=`, if any.
    pub executable: Option<String>,
    /// The words after the executable, in order.
    pub args: Vec<String>,
}

/// The views of a sequence of key/value pairs.
pub open spec fn pair_texts(v: Seq<(String, String)>) -> Seq<(Seq<char>, Seq<char>)> {
    v.map_values(|p: (String, String)| (p.0@, p.1@))
}

/// What one parsed command line holds.
pub struct InvModel {
    pub assigns: Seq<(Seq<char>, Seq<char>)>,
    pub exe: Option<Seq<char>>,
    pub args: Seq<Seq<char>>,
}

impl InvModel {
    /// `self` is the reading of the words `ws`: the leading words that hold
    /// `=` are the assignments, each split at its first `=`; the next word is
    /// the executable, the rest are the arguments.
    pub open spec fn reads(self, ws: Seq<Seq<char>>) -> bool {
        let k = self.assigns.len() as int;
        &&& k <= ws.len()
        &&& forall|i: int|
            0 <= i < k ==> #[trigger] splits_at_first_eq(ws[i], self.assigns[i].0, self.assigns[i].1)
        &&& if k == ws.len() {
            self.exe is None && self.args.len() == 0
        } else {
            &&& !has_char(ws[k], '=')
            &&& self.exe == Some(ws[k])
            &&& self.args == ws.skip(k + 1)
        }
    }
}

impl View for Invocation {
    type V = InvModel;

    open spec fn view(&self) -> InvModel {
        InvModel {
            assigns: pair_texts(self.assignments@),
            exe: match self.executable {
                Some(e) => Some(e@),
                None => None,
            },
            args: texts(self.args@),
        }
    }
}

/// Parses a command line; `None` for a line that is empty or all whitespace.
pub fn parse_line(line: &str) -> (r: Option<Invocation>)
    ensures
        r is None <==> words(line@).len() == 0,
        r matches Some(inv) ==> inv@.reads(words(line@)),
{
    let ws = split_words(line);
    let n = ws.len();
    if n == 0 {
        return None;
    }
    let ghost w = words(line@);
    let mut assignments: Vec<(String, String)> = Vec::new();
    let mut i: usize = 0;
    let mut executable: Option<String> = None;
    while i < n
        invariant_except_break
            executable is None,
        invariant
            n == ws@.len(),
            texts(ws@) == w,
            i <= n,
            assignments@.len() == i,
            forall|j: int|
                0 <= j < i ==> #[trigger] splits_at_first_eq(
                    w[j],
                    assignments@[j].0@,
                    assignments@[j].1@,
                ),
        ensures
            executable is None ==> i == n,
            executable matches Some(e) ==> i < n && !has_char(w[i as int], '=') && e@ == w[i as int],
        decreases n - i,
    {
        assert(ws@[i as int]@ == w[i as int]);
        match split_assignment(ws[i].as_str()) {
            Some(kv) => {
                assignments.push(kv);
                i = i + 1;
            },
            None => {
                executable = Some(ws[i].clone());
                break;
            },
        }
    }
    let mut args: Vec<String> = Vec::new();
    if executable.is_some() {
        let mut j: usize = i + 1;
        while j < n
            invariant
                n == ws@.len(),
                texts(ws@) == w,
                i < j <= n,
                texts(args@) == w.subrange(i + 1, j as int),
            decreases n - j,
        {
            let ghost prev = args@;
            args.push(ws[j].clone());
            assert(texts(args@) =~= texts(prev).push(w[j as int]));
            assert(w.subrange(i + 1, j + 1) =~= w.subrange(i + 1, j as int).push(w[j as int]));
            j = j + 1;
        }
        assert(w.subrange(i + 1, n as int) =~= w.skip(i + 1));
    }
    Some(Invocation { assignments, executable, args })
}

} // verus!
