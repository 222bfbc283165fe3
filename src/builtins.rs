//! The builtin commands: their closed table, and the text and values each
//! one produces.
use vstd::prelude::*;
use crate::parse::{pair_texts, splits_at_first_eq, split_assignment, texts};
use crate::text::{has_char, contains_char, same_text};

verus! {

/// The commands that the shell carries out itself.
#[derive(Clone, Copy, Debug, PartialEq, Eq, Structural)]
pub enum Builtin {
    Exit,
    Echo,
    Type,
    Env,
    Export,
    Cd,
    Pwd,
    Which,
}

/// The builtin named exactly `name`, if any.
pub open spec fn builtin_of(name: Seq<char>) -> Option<Builtin> {
    if name == "exit"@ {
        Some(Builtin::Exit)
    } else if name == "echo"@ {
        Some(Builtin::Echo)
    } else if name == "type"@ {
        Some(Builtin::Type)
    } else if name == "env"@ {
        Some(Builtin::Env)
    } else if name == "export"@ {
        Some(Builtin::Export)
    } else if name == "cd"@ {
        Some(Builtin::Cd)
    } else if name == "pwd"@ {
        Some(Builtin::Pwd)
    } else if name == "which"@ {
        Some(Builtin::Which)
    } else {
        None
    }
}

impl Builtin {
    /// The builtin named exactly `name`; `None` for any other name.
    pub fn named(name: &str) -> (r: Option<Builtin>)
        ensures
            r == builtin_of(name@),
    {
        if same_text(name, "exit") {
            Some(Builtin::Exit)
        } else if same_text(name, "echo") {
            Some(Builtin::Echo)
        } else if same_text(name, "type") {
            Some(Builtin::Type)
        } else if same_text(name, "env") {
            Some(Builtin::Env)
        } else if same_text(name, "export") {
            Some(Builtin::Export)
        } else if same_text(name, "cd") {
            Some(Builtin::Cd)
        } else if same_text(name, "pwd") {
            Some(Builtin::Pwd)
        } else if same_text(name, "which") {
            Some(Builtin::Which)
        } else {
            None
        }
    }
}

/// The words of `ws` joined by single spaces.
pub open spec fn joined(ws: Seq<Seq<char>>) -> Seq<char>
    decreases ws.len(),
{
    if ws.len() == 0 {
        seq![]
    } else if ws.len() == 1 {
        ws[0]
    } else {
        joined(ws.drop_last()) + " "@ + ws.last()
    }
}

/// What `echo` prints: its arguments joined by single spaces, and a newline.
pub open spec fn echo_line(args: Seq<Seq<char>>) -> Seq<char> {
    joined(args) + "\n"@
}

/// One `key=value` line for each pair, in order.
pub open spec fn listing(p: Seq<(Seq<char>, Seq<char>)>) -> Seq<char>
    decreases p.len(),
{
    if p.len() == 0 {
        seq![]
    } else {
        listing(p.drop_last()) + p.last().0 + "="@ + p.last().1 + "\n"@
    }
}

/// The report on a builtin name.
pub open spec fn builtin_message(name: Seq<char>) -> Seq<char> {
    name + " is a shell builtin\n"@
}

/// The report on a name found at `path`.
pub open spec fn found_message(name: Seq<char>, path: Seq<char>) -> Seq<char> {
    name + " is "@ + path + "\n"@
}

/// The report on a name that no directory of the search path holds.
pub open spec fn not_found_message(name: Seq<char>) -> Seq<char> {
    name + ": not found\n"@
}

/// The report on a command that could not be run.
pub open spec fn unknown_message(name: Seq<char>) -> Seq<char> {
    name + ": command not found\n"@
}

/// The report on a directory that `cd` could not enter.
pub open spec fn cd_failure_message(dir: Seq<char>) -> Seq<char> {
    "cd: "@ + dir + ": No such file or directory\n"@
}

/// The report on a builtin given arguments of the wrong shape.
pub open spec fn bad_format_message() -> Seq<char> {
    "Error: Bad format\n"@
}

/// The report on an `export` whose value holds another `=`.
pub open spec fn extra_equals_message() -> Seq<char> {
    "Error setting var\n"@
}

/// What `echo` prints for `args`.
pub fn echo_text(args: &Vec<String>) -> (r: String)
    ensures
        r@ == echo_line(texts(args@)),
{
    let n = args.len();
    let mut out = String::new();
    let mut i: usize = 0;
    while i < n
        invariant
            n == args@.len(),
            i <= n,
            out@ == joined(texts(args@).take(i as int)),
        decreases n - i,
    {
        let ghost ws = texts(args@).take(i + 1);
        assert(ws.drop_last() =~= texts(args@).take(i as int));
        if i > 0 {
            out.append(" ");
        } else {
            assert(out@ =~= Seq::<char>::empty());
        }
        out.append(args[i].as_str());
        assert(out@ =~= joined(ws));
        i = i + 1;
    }
    assert(texts(args@).take(n as int) =~= texts(args@));
    out.append("\n");
    out
}

/// What `env` prints for the bindings `pairs`.
pub fn listing_text(pairs: &Vec<(String, String)>) -> (r: String)
    ensures
        r@ == listing(pair_texts(pairs@)),
{
    let n = pairs.len();
    let mut out = String::new();
    let mut i: usize = 0;
    while i < n
        invariant
            n == pairs@.len(),
            i <= n,
            out@ == listing(pair_texts(pairs@).take(i as int)),
        decreases n - i,
    {
        let ghost p = pair_texts(pairs@).take(i + 1);
        assert(p.drop_last() =~= pair_texts(pairs@).take(i as int));
        out.append(pairs[i].0.as_str());
        out.append("=");
        out.append(pairs[i].1.as_str());
        out.append("\n");
        assert(out@ =~= listing(p));
        i = i + 1;
    }
    assert(pair_texts(pairs@).take(n as int) =~= pair_texts(pairs@));
    out
}

/// `name` followed by `tail`.
fn with_tail(name: &str, tail: &str) -> (r: String)
    ensures
        r@ == name@ + tail@,
{
    let mut r = String::from_str(name);
    r.append(tail);
    r
}

/// The report on a builtin name.
pub fn builtin_report(name: &str) -> (r: String)
    ensures
        r@ == builtin_message(name@),
{
    with_tail(name, " is a shell builtin\n")
}

/// The report on a name found at `path`.
pub fn found_report(name: &str, path: &str) -> (r: String)
    ensures
        r@ == found_message(name@, path@),
{
    let mut r = with_tail(name, " is ");
    r.append(path);
    r.append("\n");
    r
}

/// The report on a name that the search path does not hold.
pub fn not_found_report(name: &str) -> (r: String)
    ensures
        r@ == not_found_message(name@),
{
    with_tail(name, ": not found\n")
}

/// The report on a command that could not be run.
pub fn unknown_report(name: &str) -> (r: String)
    ensures
        r@ == unknown_message(name@),
{
    with_tail(name, ": command not found\n")
}

/// The report on a directory that `cd` could not enter.
pub fn cd_failure_report(dir: &str) -> (r: String)
    ensures
        r@ == cd_failure_message(dir@),
{
    let mut r = String::from_str("cd: ");
    r.append(dir);
    r.append(": No such file or directory\n");
    r
}

/// The report on a builtin given arguments of the wrong shape.
pub fn bad_format_report() -> (r: String)
    ensures
        r@ == bad_format_message(),
{
    String::from_str("Error: Bad format\n")
}

/// Why `export` refused its arguments.
#[derive(Clone, Copy, Debug, PartialEq, Eq, Structural)]
pub enum ExportError {
    /// Not exactly one argument, or one without `=`.
    BadFormat,
    /// The argument holds more than one `=`.
    ExtraEquals,
}

impl ExportError {
    /// The report on this refusal.
    pub open spec fn message_of(self) -> Seq<char> {
        match self {
            ExportError::BadFormat => bad_format_message(),
            ExportError::ExtraEquals => extra_equals_message(),
        }
    }

    /// The report on this refusal.
    pub fn message(&self) -> (r: String)
        ensures
            r@ == self.message_of(),
    {
        match self {
            ExportError::BadFormat => bad_format_report(),
            ExportError::ExtraEquals => String::from_str("Error setting var\n"),
        }
    }
}

/// `t` holds exactly one `=`, and splits there into `k` and `v`.
pub open spec fn single_assignment(t: Seq<char>, k: Seq<char>, v: Seq<char>) -> bool {
    splits_at_first_eq(t, k, v) && !has_char(v, '=')
}

/// The binding that `export` is asked to make: its one argument, holding
/// exactly one `=`, split there.
pub fn export_binding(args: &Vec<String>) -> (r: Result<(String, String), ExportError>)
    ensures
        match r {
            Ok((k, v)) => args@.len() == 1 && single_assignment(args@[0]@, k@, v@),
            Err(ExportError::BadFormat) => args@.len() != 1 || !has_char(args@[0]@, '='),
            Err(ExportError::ExtraEquals) => args@.len() == 1 && has_char(args@[0]@, '=') && (
            forall|k: Seq<char>, v: Seq<char>|
                splits_at_first_eq(args@[0]@, k, v) ==> has_char(v, '=')),
        },
{
    if args.len() != 1 {
        return Err(ExportError::BadFormat);
    }
    match split_assignment(args[0].as_str()) {
        None => Err(ExportError::BadFormat),
        Some((k, v)) => {
            if contains_char(v.as_str(), '=') {
                proof {
                    assert forall|k2: Seq<char>, v2: Seq<char>|
                        splits_at_first_eq(args@[0]@, k2, v2) implies has_char(v2, '=') by {
                        lemma_split_unique(args@[0]@, k@, v@, k2, v2);
                    }
                    let w = choose|i: int| 0 <= i < v@.len() && v@[i] == '=';
                    assert(args@[0]@[k@.len() + 1 + w] == '=');
                }
                Err(ExportError::ExtraEquals)
            } else {
                Ok((k, v))
            }
        },
    }
}

/// A token splits at its first `=` in one way only.
pub proof fn lemma_split_unique(
    t: Seq<char>,
    k1: Seq<char>,
    v1: Seq<char>,
    k2: Seq<char>,
    v2: Seq<char>,
)
    requires
        splits_at_first_eq(t, k1, v1),
        splits_at_first_eq(t, k2, v2),
    ensures
        k1 == k2,
        v1 == v2,
{
    assert(t[k1.len() as int] == '=');
    assert(t[k2.len() as int] == '=');
    if k1.len() < k2.len() {
        assert(k2[k1.len() as int] == t[k1.len() as int]);
    } else if k2.len() < k1.len() {
        assert(k1[k2.len() as int] == t[k2.len() as int]);
    }
    assert(k1 =~= t.take(k1.len() as int));
    assert(k2 =~= t.take(k2.len() as int));
    assert(v1 =~= t.skip(k1.len() + 1 as int));
    assert(v2 =~= t.skip(k2.len() + 1 as int));
}


/// Whether every character of `s` is an ASCII digit.
pub open spec fn all_digits(s: Seq<char>) -> bool {
    forall|i: int| 0 <= i < s.len() ==> '0' <= #[trigger] s[i] <= '9'
}

/// The number that the decimal digits `s` write.
pub open spec fn digits_value(s: Seq<char>) -> int
    decreases s.len(),
{
    if s.len() == 0 {
        0
    } else {
        digits_value(s.drop_last()) * 10 + (s.last() as int - '0' as int)
    }
}

/// The integer that `s` writes in decimal: an optional sign, then one or
/// more digits; `None` for any other text.
pub open spec fn int_value(s: Seq<char>) -> Option<int> {
    if s.len() > 0 && (s[0] == '-' || s[0] == '+') {
        let d = s.skip(1);
        if d.len() > 0 && all_digits(d) {
            Some(
                if s[0] == '-' {
                    -digits_value(d)
                } else {
                    digits_value(d)
                },
            )
        } else {
            None
        }
    } else if s.len() > 0 && all_digits(s) {
        Some(digits_value(s))
    } else {
        None
    }
}

/// The `i32` that `s` writes, `None` where it writes none or one out of range.
pub open spec fn i32_value(s: Seq<char>) -> Option<int> {
    match int_value(s) {
        Some(v) => if i32::MIN <= v <= i32::MAX {
            Some(v)
        } else {
            None
        },
        None => None,
    }
}

/// The status that `exit` ends the shell with: its first argument read as
/// an `i32`, and 0 where that argument is missing or is no such number.
pub open spec fn exit_status_of(args: Seq<Seq<char>>) -> int {
    if args.len() > 0 && i32_value(args[0]) is Some {
        i32_value(args[0])->0
    } else {
        0
    }
}

/// Any value beyond `i32`'s range in magnitude, kept while reading digits.
const OVER: u64 = 2147483649;

/// The value of the digits `s[from..]`, capped at `OVER`; `None` where a
/// character there is no digit or there is none.
fn capped_digits(s: &str, from: usize) -> (r: Option<u64>)
    requires
        from <= s@.len(),
    ensures
        match r {
            Some(x) => {
                &&& s@.skip(from as int).len() > 0
                &&& all_digits(s@.skip(from as int))
                &&& x == if digits_value(s@.skip(from as int)) < OVER as int {
                    digits_value(s@.skip(from as int))
                } else {
                    OVER as int
                }
            },
            None => !(s@.skip(from as int).len() > 0 && all_digits(s@.skip(from as int))),
        },
{
    let n = s.unicode_len();
    if from == n {
        return None;
    }
    let ghost d = s@.skip(from as int);
    let mut acc: u64 = 0;
    let mut i: usize = from;
    while i < n
        invariant
            n == s@.len(),
            from <= i <= n,
            d == s@.skip(from as int),
            all_digits(d.take(i - from)),
            digits_value(d.take(i - from)) >= 0,
            acc as int == if digits_value(d.take(i - from)) < OVER as int {
                digits_value(d.take(i - from))
            } else {
                OVER as int
            },
        decreases n - i,
    {
        let c = s.get_char(i);
        if !('0' <= c && c <= '9') {
            assert(d[i - from] == c);
            return None;
        }
        let ghost pre = d.take(i - from);
        let ghost now = d.take(i - from + 1);
        assert(now.drop_last() =~= pre);
        assert(now.last() == c);
        let dig = (c as u32 - '0' as u32) as u64;
        let ghost v = digits_value(pre);
        assert(digits_value(now) == v * 10 + dig);
        if acc >= OVER {
            assert(v * 10 + dig >= OVER as int) by (nonlinear_arith)
                requires
                    v >= OVER as int,
                    dig >= 0,
            ;
        } else {
            assert(acc * 10 + dig == v * 10 + dig);
        }
        acc = if acc * 10 + dig >= OVER {
            OVER
        } else {
            acc * 10 + dig
        };
        assert(all_digits(now)) by {
            assert forall|j: int| 0 <= j < now.len() implies '0' <= #[trigger] now[j] <= '9' by {
                if j < now.len() - 1 {
                    assert(now[j] == pre[j]);
                }
            }
        }
        i = i + 1;
    }
    assert(d.take(n - from) =~= d);
    Some(acc)
}

/// Reads `s` as an `i32` in decimal: an optional sign, then digits.
pub fn parse_i32(s: &str) -> (r: Option<i32>)
    ensures
        match r {
            Some(x) => i32_value(s@) == Some(x as int),
            None => i32_value(s@) is None,
        },
{
    let n = s.unicode_len();
    if n == 0 {
        return None;
    }
    let c = s.get_char(0);
    if c == '-' || c == '+' {
        match capped_digits(s, 1) {
            None => None,
            Some(x) => {
                if c == '-' && x <= 2147483648 {
                    Some((0 - x as i64) as i32)
                } else if c == '+' && x <= 2147483647 {
                    Some(x as i32)
                } else {
                    None
                }
            },
        }
    } else {
        assert(s@.skip(0) =~= s@);
        match capped_digits(s, 0) {
            None => None,
            Some(x) => {
                if x <= 2147483647 {
                    Some(x as i32)
                } else {
                    None
                }
            },
        }
    }
}

/// The status that `exit` ends the shell with.
pub fn exit_status(args: &Vec<String>) -> (r: i32)
    ensures
        r as int == exit_status_of(texts(args@)),
{
    if args.len() == 0 {
        return 0;
    }
    assert(texts(args@)[0] == args@[0]@);
    match parse_i32(args[0].as_str()) {
        Some(x) => x,
        None => 0,
    }
}

} // verus!
