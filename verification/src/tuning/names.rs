use vstd::prelude::*;

use crate::text::{chars_of, is_white_space_char, push_chars};
use crate::tuning::error::TuningError;
use crate::vm::types::Opcode;

verus! {

/// Number of opcodes, and of entries in the opcode name table.
pub const OPCODE_COUNT: usize = 19;

/// The name of an opcode in tuning files.
pub open spec fn opcode_name(op: Opcode) -> Seq<char> {
    match op {
        Opcode::Dup => seq!['d', 'u', 'p'],
        Opcode::Swap => seq!['s', 'w', 'a', 'p'],
        Opcode::Drop => seq!['d', 'r', 'o', 'p'],
        Opcode::Rotate => seq!['r', 'o', 't', 'a', 't', 'e'],
        Opcode::Add => seq!['a', 'd', 'd'],
        Opcode::Sub => seq!['s', 'u', 'b'],
        Opcode::Mul => seq!['m', 'u', 'l'],
        Opcode::Div => seq!['d', 'i', 'v'],
        Opcode::Mod => seq!['m', 'o', 'd'],
        Opcode::Eq => seq!['e', 'q'],
        Opcode::Gt => seq!['g', 't'],
        Opcode::Lt => seq!['l', 't'],
        Opcode::LoopStart => seq!['l', 'o', 'o', 'p', '_', 's', 't', 'a', 'r', 't'],
        Opcode::LoopEnd => seq!['l', 'o', 'o', 'p', '_', 'e', 'n', 'd'],
        Opcode::PrintNum => seq!['p', 'r', 'i', 'n', 't', '_', 'n', 'u', 'm'],
        Opcode::PrintChar => seq!['p', 'r', 'i', 'n', 't', '_', 'c', 'h', 'a', 'r'],
        Opcode::Read => seq!['r', 'e', 'a', 'd'],
        Opcode::Store => seq!['s', 't', 'o', 'r', 'e'],
        Opcode::Load => seq!['l', 'o', 'a', 'd'],
    }
}

/// The opcode at a position of the name table (the order of the opcode list).
pub open spec fn opcode_at(i: int) -> Opcode {
    if i == 0 {
        Opcode::Dup
    } else if i == 1 {
        Opcode::Swap
    } else if i == 2 {
        Opcode::Drop
    } else if i == 3 {
        Opcode::Rotate
    } else if i == 4 {
        Opcode::Add
    } else if i == 5 {
        Opcode::Sub
    } else if i == 6 {
        Opcode::Mul
    } else if i == 7 {
        Opcode::Div
    } else if i == 8 {
        Opcode::Mod
    } else if i == 9 {
        Opcode::Eq
    } else if i == 10 {
        Opcode::Gt
    } else if i == 11 {
        Opcode::Lt
    } else if i == 12 {
        Opcode::LoopStart
    } else if i == 13 {
        Opcode::LoopEnd
    } else if i == 14 {
        Opcode::PrintNum
    } else if i == 15 {
        Opcode::PrintChar
    } else if i == 16 {
        Opcode::Read
    } else if i == 17 {
        Opcode::Store
    } else {
        Opcode::Load
    }
}

/// The name at a position of the name table.
pub open spec fn name_at(i: int) -> Seq<char> {
    opcode_name(opcode_at(i))
}

/// The opcode at a position of the name table.
pub fn opcode_at_index(i: usize) -> (op: Opcode)
    requires
        i < OPCODE_COUNT,
    ensures
        op == opcode_at(i as int),
{
    match i {
        0 => Opcode::Dup,
        1 => Opcode::Swap,
        2 => Opcode::Drop,
        3 => Opcode::Rotate,
        4 => Opcode::Add,
        5 => Opcode::Sub,
        6 => Opcode::Mul,
        7 => Opcode::Div,
        8 => Opcode::Mod,
        9 => Opcode::Eq,
        10 => Opcode::Gt,
        11 => Opcode::Lt,
        12 => Opcode::LoopStart,
        13 => Opcode::LoopEnd,
        14 => Opcode::PrintNum,
        15 => Opcode::PrintChar,
        16 => Opcode::Read,
        17 => Opcode::Store,
        _ => Opcode::Load,
    }
}

/// The name of an opcode.
pub fn opcode_name_chars(op: Opcode) -> (r: Vec<char>)
    ensures
        r@ == opcode_name(op),
{
    let v = match op {
        Opcode::Dup => vec!['d', 'u', 'p'],
        Opcode::Swap => vec!['s', 'w', 'a', 'p'],
        Opcode::Drop => vec!['d', 'r', 'o', 'p'],
        Opcode::Rotate => vec!['r', 'o', 't', 'a', 't', 'e'],
        Opcode::Add => vec!['a', 'd', 'd'],
        Opcode::Sub => vec!['s', 'u', 'b'],
        Opcode::Mul => vec!['m', 'u', 'l'],
        Opcode::Div => vec!['d', 'i', 'v'],
        Opcode::Mod => vec!['m', 'o', 'd'],
        Opcode::Eq => vec!['e', 'q'],
        Opcode::Gt => vec!['g', 't'],
        Opcode::Lt => vec!['l', 't'],
        Opcode::LoopStart => vec!['l', 'o', 'o', 'p', '_', 's', 't', 'a', 'r', 't'],
        Opcode::LoopEnd => vec!['l', 'o', 'o', 'p', '_', 'e', 'n', 'd'],
        Opcode::PrintNum => vec!['p', 'r', 'i', 'n', 't', '_', 'n', 'u', 'm'],
        Opcode::PrintChar => vec!['p', 'r', 'i', 'n', 't', '_', 'c', 'h', 'a', 'r'],
        Opcode::Read => vec!['r', 'e', 'a', 'd'],
        Opcode::Store => vec!['s', 't', 'o', 'r', 'e'],
        Opcode::Load => vec!['l', 'o', 'a', 'd'],
    };
    proof {
        assert(v@ =~= opcode_name(op));
    }
    v
}

/// Whether two character sequences are equal.
pub fn chars_eq(a: &Vec<char>, b: &Vec<char>) -> (r: bool)
    ensures
        r == (a@ == b@),
{
    if a.len() != b.len() {
        return false;
    }
    let mut i: usize = 0;
    while i < a.len()
        invariant
            a.len() == b.len(),
            i <= a.len(),
            forall|k: int| 0 <= k < i ==> a@[k] == b@[k],
        decreases a.len() - i,
    {
        if a[i] != b[i] {
            return false;
        }
        i = i + 1;
    }
    proof {
        assert(a@ =~= b@);
    }
    true
}

/// `needle` occurs in `hay` as a contiguous run (the empty sequence occurs everywhere).
pub open spec fn occurs_in(needle: Seq<char>, hay: Seq<char>) -> bool {
    exists|i: int|
        0 <= i && i + needle.len() <= hay.len() && #[trigger] hay.subrange(i, i + needle.len())
            == needle
}

/// Whether `needle` occurs in `hay`.
pub fn contains_chars(hay: &Vec<char>, needle: &Vec<char>) -> (r: bool)
    ensures
        r == occurs_in(needle@, hay@),
{
    if needle.len() > hay.len() {
        return false;
    }
    let last = hay.len() - needle.len();
    let mut i: usize = 0;
    loop
        invariant
            last == hay.len() - needle.len(),
            needle.len() <= hay.len(),
            i <= last,
            forall|k: int|
                0 <= k < i ==> #[trigger] hay@.subrange(k, k + needle.len()) != needle@,
        decreases last - i,
    {
        let mut j: usize = 0;
        let mut ok = true;
        while j < needle.len()
            invariant
                i <= last,
                last == hay.len() - needle.len(),
                j <= needle.len(),
                ok ==> forall|k: int| 0 <= k < j ==> hay@[i + k] == needle@[k],
                !ok ==> hay@.subrange(i as int, i + needle.len()) != needle@,
            decreases needle.len() - j,
        {
            if hay[i + j] != needle[j] {
                proof {
                    assert(hay@.subrange(i as int, i + needle.len())[j as int] != needle@[j as int]);
                }
                ok = false;
            }
            j = j + 1;
        }
        if ok {
            proof {
                assert(hay@.subrange(i as int, i + needle.len()) =~= needle@);
            }
            return true;
        }
        if i == last {
            proof {
                assert forall|k: int|
                    0 <= k && k + needle@.len() <= hay@.len() implies #[trigger] hay@.subrange(
                    k,
                    k + needle@.len(),
                ) != needle@ by {}
            }
            return false;
        }
        i = i + 1;
    }
}

/// Levenshtein distance between the first `i` characters of `a` and the first `j` of `b`.
pub open spec fn lev(a: Seq<char>, b: Seq<char>, i: nat, j: nat) -> nat
    decreases i + j,
{
    if i == 0 {
        j
    } else if j == 0 {
        i
    } else {
        let del = lev(a, b, (i - 1) as nat, j) + 1;
        let ins = lev(a, b, i, (j - 1) as nat) + 1;
        let sub = lev(a, b, (i - 1) as nat, (j - 1) as nat) + if a[i - 1] == b[j - 1] {
            0nat
        } else {
            1nat
        };
        if del <= ins && del <= sub {
            del
        } else if ins <= sub {
            ins
        } else {
            sub
        }
    }
}

/// Levenshtein distance between two sequences.
pub open spec fn edit_distance_spec(a: Seq<char>, b: Seq<char>) -> nat {
    lev(a, b, a.len(), b.len())
}

proof fn lemma_lev_bound(a: Seq<char>, b: Seq<char>, i: nat, j: nat)
    ensures
        lev(a, b, i, j) <= i + j,
    decreases i + j,
{
    if i > 0 && j > 0 {
        lemma_lev_bound(a, b, (i - 1) as nat, j);
    }
}

/// The distance is at least the difference of the lengths.
proof fn lemma_lev_lower(a: Seq<char>, b: Seq<char>, i: nat, j: nat)
    ensures
        lev(a, b, i, j) >= i - j,
    decreases i + j,
{
    if i > 0 && j > 0 {
        lemma_lev_lower(a, b, (i - 1) as nat, j);
        lemma_lev_lower(a, b, i, (j - 1) as nat);
        lemma_lev_lower(a, b, (i - 1) as nat, (j - 1) as nat);
    }
}

/// Every table name has at most ten characters.
proof fn lemma_name_len(i: int)
    ensures
        name_at(i).len() <= 10,
{
}

/// An input longer than twelve characters is more than 2 edits from every table name.
proof fn lemma_no_close_name(input: Seq<char>, k: int)
    requires
        input.len() > 12,
    ensures
        best_edit(input, k) is None,
    decreases k,
{
    if k > 0 {
        lemma_no_close_name(input, k - 1);
        lemma_name_len(k - 1);
        lemma_lev_lower(input, name_at(k - 1), input.len(), name_at(k - 1).len());
    }
}

/// Levenshtein edit distance, computed over the full dynamic-programming table.
pub fn edit_distance(a: &Vec<char>, b: &Vec<char>) -> (d: usize)
    requires
        a.len() + b.len() < usize::MAX,
    ensures
        d == edit_distance_spec(a@, b@),
{
    let m = a.len();
    let n = b.len();
    let mut dp: Vec<Vec<usize>> = Vec::new();
    let mut i: usize = 0;
    while i <= m
        invariant
            m == a.len(),
            n == b.len(),
            a.len() + b.len() < usize::MAX,
            i <= m + 1,
            dp.len() == i,
            forall|r: int| 0 <= r < i ==> #[trigger] dp@[r].len() == n + 1,
            forall|r: int, c: int|
                0 <= r < i && 0 <= c <= n ==> #[trigger] dp@[r]@[c] == lev(a@, b@, r as nat, c as nat),
        decreases m + 1 - i,
    {
        let mut row: Vec<usize> = Vec::new();
        let mut j: usize = 0;
        while j <= n
            invariant
                m == a.len(),
                n == b.len(),
                a.len() + b.len() < usize::MAX,
                i <= m,
                j <= n + 1,
                row.len() == j,
                dp.len() == i,
                forall|r: int| 0 <= r < i ==> #[trigger] dp@[r].len() == n + 1,
                forall|r: int, c: int|
                    0 <= r < i && 0 <= c <= n ==> #[trigger] dp@[r]@[c] == lev(
                        a@,
                        b@,
                        r as nat,
                        c as nat,
                    ),
                forall|c: int| 0 <= c < j ==> #[trigger] row@[c] == lev(a@, b@, i as nat, c as nat),
            decreases n + 1 - j,
        {
            let v: usize;
            if i == 0 {
                v = j;
            } else if j == 0 {
                v = i;
            } else {
                proof {
                    lemma_lev_bound(a@, b@, (i - 1) as nat, j as nat);
                    lemma_lev_bound(a@, b@, i as nat, (j - 1) as nat);
                    lemma_lev_bound(a@, b@, (i - 1) as nat, (j - 1) as nat);
                }
                assert(dp@[i - 1].len() == n + 1);
                assert(dp@[i - 1]@[j as int] == lev(a@, b@, (i - 1) as nat, j as nat));
                assert(dp@[i - 1]@[j - 1] == lev(a@, b@, (i - 1) as nat, (j - 1) as nat));
                let del = dp[i - 1][j] + 1;
                let ins = row[j - 1] + 1;
                let cost: usize = if a[i - 1] == b[j - 1] {
                    0
                } else {
                    1
                };
                let sub = dp[i - 1][j - 1] + cost;
                v = if del <= ins && del <= sub {
                    del
                } else if ins <= sub {
                    ins
                } else {
                    sub
                };
            }
            row.push(v);
            j = j + 1;
        }
        dp.push(row);
        i = i + 1;
    }
    assert(dp@[m as int].len() == n + 1);
    assert(dp@[m as int]@[n as int] == lev(a@, b@, m as nat, n as nat));
    dp[m][n]
}

/// Strips leading `White_Space` characters.
pub open spec fn trim_start(s: Seq<char>) -> Seq<char>
    decreases s.len(),
{
    if s.len() > 0 && crate::text::is_white_space(s[0]) {
        trim_start(s.drop_first())
    } else {
        s
    }
}

/// Strips trailing `White_Space` characters.
pub open spec fn trim_end(s: Seq<char>) -> Seq<char>
    decreases s.len(),
{
    if s.len() > 0 && crate::text::is_white_space(s.last()) {
        trim_end(s.drop_last())
    } else {
        s
    }
}

/// Strips leading and trailing `White_Space` characters, as `str::trim` does.
pub open spec fn trim(s: Seq<char>) -> Seq<char> {
    trim_end(trim_start(s))
}

/// The characters of `s` without leading and trailing white space.
pub fn trim_chars(s: &Vec<char>) -> (r: Vec<char>)
    ensures
        r@ == trim(s@),
{
    let n = s.len();
    let mut lo: usize = 0;
    assert(s@.subrange(0, n as int) =~= s@);
    while lo < n && is_white_space_char(s[lo])
        invariant
            n == s.len(),
            lo <= n,
            trim_start(s@) == trim_start(s@.subrange(lo as int, n as int)),
        decreases n - lo,
    {
        proof {
            assert(s@.subrange(lo as int, n as int).drop_first() =~= s@.subrange(lo + 1, n as int));
        }
        lo = lo + 1;
    }
    let ghost started = s@.subrange(lo as int, n as int);
    assert(trim_start(s@) == started);
    let mut hi: usize = n;
    while hi > lo && is_white_space_char(s[hi - 1])
        invariant
            n == s.len(),
            lo <= hi <= n,
            started == s@.subrange(lo as int, n as int),
            trim_end(started) == trim_end(s@.subrange(lo as int, hi as int)),
        decreases hi - lo,
    {
        proof {
            assert(s@.subrange(lo as int, hi as int).drop_last() =~= s@.subrange(
                lo as int,
                hi - 1,
            ));
        }
        hi = hi - 1;
    }
    let mut out: Vec<char> = Vec::new();
    let mut k: usize = lo;
    while k < hi
        invariant
            lo <= k <= hi,
            hi <= n,
            n == s.len(),
            out@ == s@.subrange(lo as int, k as int),
        decreases hi - k,
    {
        proof {
            assert(s@.subrange(lo as int, k + 1) =~= s@.subrange(lo as int, k as int).push(
                s@[k as int],
            ));
        }
        out.push(s[k]);
        k = k + 1;
    }
    out
}

/// Lowercase mapping of a character sequence, as `str::to_lowercase` computes it
/// from the Unicode case tables.
pub uninterp spec fn lowercase(s: Seq<char>) -> Seq<char>;

/// ASCII lowercase of one character.
pub open spec fn ascii_lower_char(c: char) -> char {
    if 'A' <= c && c <= 'Z' {
        ((c as u32) + 32) as char
    } else {
        c
    }
}

/// Whether every character is ASCII.
pub open spec fn all_ascii(s: Seq<char>) -> bool {
    forall|i: int| 0 <= i < s.len() ==> (#[trigger] s[i] as u32) < 128
}

/// ASCII lowercase of a sequence.
pub open spec fn ascii_lower(s: Seq<char>) -> Seq<char> {
    s.map_values(|c: char| ascii_lower_char(c))
}

/// The lowercase of a sequence as `str::to_lowercase` gives it: on ASCII text that is
/// the ASCII lowercase (`A`-`Z` become `a`-`z`, nothing else changes).
pub open spec fn lower(s: Seq<char>) -> Seq<char> {
    if all_ascii(s) {
        ascii_lower(s)
    } else {
        lowercase(s)
    }
}

/// `str::to_lowercase`: the Unicode lowercase of a string; the result is only named.
#[verifier::external_body]
pub(crate) fn to_lowercase_string(s: &str) -> (r: String)
    ensures
        r@ == lowercase(s@),
{
    s.to_lowercase()
}

/// The lowercase of a character sequence: ASCII text is lowered here, other text
/// through `str::to_lowercase`.
pub fn lower_chars(v: &Vec<char>) -> (r: Vec<char>)
    ensures
        r@ == lower(v@),
{
    let mut i: usize = 0;
    while i < v.len()
        invariant
            i <= v.len(),
            forall|k: int| 0 <= k < i ==> (#[trigger] v@[k] as u32) < 128,
        decreases v.len() - i,
    {
        if (v[i] as u32) >= 128 {
            let s = string_of_chars(v);
            let lowered = to_lowercase_string(s.as_str());
            return chars_of(lowered.as_str());
        }
        i = i + 1;
    }
    let mut out: Vec<char> = Vec::new();
    let mut k: usize = 0;
    while k < v.len()
        invariant
            k <= v.len(),
            all_ascii(v@),
            out@ == ascii_lower(v@.subrange(0, k as int)),
        decreases v.len() - k,
    {
        let c = v[k];
        let l = if 'A' <= c && c <= 'Z' {
            ((c as u32) + 32) as u8 as char
        } else {
            c
        };
        proof {
            assert(ascii_lower(v@.subrange(0, k + 1)) =~= ascii_lower(v@.subrange(0, k as int)).push(
                ascii_lower_char(c),
            ));
        }
        out.push(l);
        k = k + 1;
    }
    proof {
        assert(v@.subrange(0, k as int) =~= v@);
    }
    out
}

/// How an opcode name is normalized before lookup: trimmed, then lowercased.
pub open spec fn normalize(name: Seq<char>) -> Seq<char> {
    lower(trim(name))
}

/// The normalized form of an opcode name.
pub fn normalized_chars(name: &str) -> (r: Vec<char>)
    ensures
        r@ == normalize(name@),
{
    let raw = chars_of(name);
    let trimmed = trim_chars(&raw);
    lower_chars(&trimmed)
}

/// The position of the first table name satisfying containment either way with `input`,
/// searching from position `i`.
pub open spec fn first_containing(input: Seq<char>, i: int) -> Option<int>
    decreases OPCODE_COUNT - i,
{
    if i >= OPCODE_COUNT || i < 0 {
        None
    } else if occurs_in(name_at(i), input) || occurs_in(input, name_at(i)) {
        Some(i)
    } else {
        first_containing(input, i + 1)
    }
}

/// The best edit-distance candidate among the first `k` table names: the first name
/// with the smallest distance, among names at distance at most 2.
pub open spec fn best_edit(input: Seq<char>, k: int) -> Option<(int, nat)>
    decreases k,
{
    if k <= 0 {
        None
    } else {
        let prev = best_edit(input, k - 1);
        let d = edit_distance_spec(input, name_at(k - 1));
        let better = match prev {
            None => true,
            Some((_, best_d)) => d < best_d,
        };
        if d <= 2 && better {
            Some((k - 1, d))
        } else {
            prev
        }
    }
}

/// The suggestion offered for an unknown opcode name.
pub open spec fn suggestion_spec(input: Seq<char>) -> Option<Seq<char>> {
    match first_containing(input, 0) {
        Some(i) => Some(name_at(i)),
        None => match best_edit(input, OPCODE_COUNT as int) {
            Some((i, _)) => Some(name_at(i)),
            None => None,
        },
    }
}

/// The opcode whose name is `n`, if any.
pub open spec fn lookup_opcode(n: Seq<char>) -> Option<Opcode> {
    if exists|i: int| 0 <= i < OPCODE_COUNT && name_at(i) == n {
        Some(opcode_at(choose|i: int| 0 <= i < OPCODE_COUNT && name_at(i) == n))
    } else {
        None
    }
}

/// A `String` holding the given characters.
pub fn string_of_chars(cs: &Vec<char>) -> (s: String)
    ensures
        s@ == cs@,
{
    let mut s = String::new();
    push_chars(&mut s, cs);
    s
}

/// Suggests a known opcode name close to `input`: first a name that contains it or that
/// it contains, else the closest name within edit distance 2.
pub fn suggest_opcode(input: &Vec<char>) -> (r: Option<String>)
    ensures
        opt_chars(r) == suggestion_spec(input@),
{
    let mut i: usize = 0;
    while i < OPCODE_COUNT
        invariant
            i <= OPCODE_COUNT,
            first_containing(input@, 0) == first_containing(input@, i as int),
        decreases OPCODE_COUNT - i,
    {
        let name = opcode_name_chars(opcode_at_index(i));
        if contains_chars(input, &name) || contains_chars(&name, input) {
            return Some(string_of_chars(&name));
        }
        i = i + 1;
    }
    if input.len() > 12 {
        proof {
            lemma_no_close_name(input@, OPCODE_COUNT as int);
        }
        return None;
    }
    let mut best: Option<(usize, usize)> = None;
    let mut k: usize = 0;
    while k < OPCODE_COUNT
        invariant
            k <= OPCODE_COUNT,
            input.len() <= 12,
            match best_edit(input@, k as int) {
                None => best is None,
                Some((bi, bd)) => best matches Some((x, y)) && x == bi && y == bd && 0 <= bi < k,
            },
        decreases OPCODE_COUNT - k,
    {
        let name = opcode_name_chars(opcode_at_index(k));
        let d = edit_distance(input, &name);
        if d <= 2 {
            match best {
                None => {
                    best = Some((k, d));
                },
                Some((_, bd)) => {
                    if d < bd {
                        best = Some((k, d));
                    }
                },
            }
        }
        k = k + 1;
    }
    match best {
        Some((bi, _)) => Some(string_of_chars(&opcode_name_chars(opcode_at_index(bi)))),
        None => None,
    }
}

pub open spec fn opt_chars(o: Option<String>) -> Option<Seq<char>> {
    match o {
        Some(s) => Some(s@),
        None => None,
    }
}

/// What `parse_opcode` gives for a name: the opcode whose table name equals the
/// normalized name, or the unknown-opcode error with its suggestion.
pub open spec fn parse_opcode_spec(name: Seq<char>) -> Result<
    Opcode,
    crate::tuning::error::TuningErrorView,
> {
    let n = normalize(name);
    match lookup_opcode(n) {
        Some(op) => Ok(op),
        None => Err(
            crate::tuning::error::TuningErrorView::UnknownOpcode {
                found: n,
                suggestion: suggestion_spec(n),
            },
        ),
    }
}

/// Parses an opcode name: surrounding white space is ignored and case does not matter.
/// An unknown name gives `UnknownOpcode`, with a suggestion when one is close.
pub fn parse_opcode(name: &str) -> (r: Result<Opcode, TuningError>)
    ensures
        match r {
            Ok(op) => parse_opcode_spec(name@) == Ok::<
                Opcode,
                crate::tuning::error::TuningErrorView,
            >(op),
            Err(e) => parse_opcode_spec(name@) == Err::<
                Opcode,
                crate::tuning::error::TuningErrorView,
            >(e@),
        },
{
    let n = normalized_chars(name);
    let mut i: usize = 0;
    while i < OPCODE_COUNT
        invariant
            i <= OPCODE_COUNT,
            n@ == normalize(name@),
            forall|k: int| 0 <= k < i ==> name_at(k) != n@,
        decreases OPCODE_COUNT - i,
    {
        let op = opcode_at_index(i);
        let candidate = opcode_name_chars(op);
        if chars_eq(&candidate, &n) {
            proof {
                lemma_names_distinct();
                assert(name_at(i as int) == n@);
                let j = choose|j: int| 0 <= j < OPCODE_COUNT && name_at(j) == n@;
                assert(j == i);
                assert(lookup_opcode(n@) == Some(op));
            }
            return Ok(op);
        }
        i = i + 1;
    }
    assert(lookup_opcode(n@) is None);
    let suggestion = suggest_opcode(&n);
    Err(TuningError::UnknownOpcode { found: string_of_chars(&n), suggestion })
}

/// The table names are pairwise distinct.
pub proof fn lemma_names_distinct()
    ensures
        forall|i: int, j: int|
            0 <= i < OPCODE_COUNT && 0 <= j < OPCODE_COUNT && i != j ==> name_at(i) != name_at(j),
{
    assert forall|i: int, j: int|
        0 <= i < OPCODE_COUNT && 0 <= j < OPCODE_COUNT && i != j implies name_at(i) != name_at(
        j,
    ) by {
        if name_at(i) == name_at(j) {
            assert(name_at(i).len() == name_at(j).len());
            assert(name_at(i)[0] == name_at(j)[0]);
            assert(name_at(i)[1] == name_at(j)[1]);
            assert(name_at(i)[name_at(i).len() - 1] == name_at(j)[name_at(j).len() - 1]);
        }
    }
}

/// A character of an opcode name: a lowercase ASCII letter or `_`.
pub open spec fn is_name_char(c: char) -> bool {
    ('a' <= c && c <= 'z') || c == '_'
}

/// A non-empty run of opcode-name characters.
pub open spec fn plain_name(s: Seq<char>) -> bool {
    s.len() > 0 && forall|k: int| 0 <= k < s.len() ==> is_name_char(#[trigger] s[k])
}

/// The position of an opcode in the name table.
pub open spec fn opcode_index(op: Opcode) -> int {
    match op {
        Opcode::Dup => 0,
        Opcode::Swap => 1,
        Opcode::Drop => 2,
        Opcode::Rotate => 3,
        Opcode::Add => 4,
        Opcode::Sub => 5,
        Opcode::Mul => 6,
        Opcode::Div => 7,
        Opcode::Mod => 8,
        Opcode::Eq => 9,
        Opcode::Gt => 10,
        Opcode::Lt => 11,
        Opcode::LoopStart => 12,
        Opcode::LoopEnd => 13,
        Opcode::PrintNum => 14,
        Opcode::PrintChar => 15,
        Opcode::Read => 16,
        Opcode::Store => 17,
        Opcode::Load => 18,
    }
}

proof fn lemma_opcode_name_plain(op: Opcode)
    ensures
        plain_name(opcode_name(op)),
        0 <= opcode_index(op) < OPCODE_COUNT,
        opcode_at(opcode_index(op)) == op,
{
    let s = opcode_name(op);
    assert forall|k: int| 0 <= k < s.len() implies is_name_char(#[trigger] s[k]) by {
        match op {
            Opcode::Dup => {},
            Opcode::Swap => {},
            Opcode::Drop => {},
            Opcode::Rotate => {},
            Opcode::Add => {},
            Opcode::Sub => {},
            Opcode::Mul => {},
            Opcode::Div => {},
            Opcode::Mod => {},
            Opcode::Eq => {},
            Opcode::Gt => {},
            Opcode::Lt => {},
            Opcode::LoopStart => {},
            Opcode::LoopEnd => {},
            Opcode::PrintNum => {},
            Opcode::PrintChar => {},
            Opcode::Read => {},
            Opcode::Store => {},
            Opcode::Load => {},
        }
    }
}

proof fn lemma_normalize_plain(s: Seq<char>)
    requires
        plain_name(s),
    ensures
        normalize(s) == s,
{
    assert(is_name_char(s[0]));
    assert(!crate::text::is_white_space(s[0]));
    assert(trim_start(s) == s);
    assert(is_name_char(s[s.len() - 1]));
    assert(!crate::text::is_white_space(s.last()));
    assert(trim_end(s) == s);
    assert(all_ascii(s)) by {
        assert forall|i: int| 0 <= i < s.len() implies (#[trigger] s[i] as u32) < 128 by {
            assert(is_name_char(s[i]));
        }
    }
    assert(ascii_lower(s) =~= s) by {
        assert forall|i: int| 0 <= i < s.len() implies ascii_lower(s)[i] == s[i] by {
            assert(is_name_char(s[i]));
        }
    }
}

/// An opcode's own name parses back to that opcode.
pub proof fn lemma_parse_opcode_name(op: Opcode)
    ensures
        parse_opcode_spec(opcode_name(op)) == Ok::<Opcode, crate::tuning::error::TuningErrorView>(
            op,
        ),
{
    lemma_opcode_name_plain(op);
    lemma_normalize_plain(opcode_name(op));
    lemma_names_distinct();
    let n = opcode_name(op);
    let i = opcode_index(op);
    assert(name_at(i) == n);
    let j = choose|j: int| 0 <= j < OPCODE_COUNT && name_at(j) == n;
    assert(j == i);
}

} // verus!
