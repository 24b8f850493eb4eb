//! The text pattern match of SQL's `LIKE`: `%` stands for any run of
//! characters, `_` for exactly one, and letters match without regard to
//! ASCII case.

use vstd::prelude::*;

verus! {

/// Two characters match in a pattern: equal, or the same ASCII letter in
/// either case.
pub open spec fn same_letter(a: char, b: char) -> bool {
    let x = a as int;
    let y = b as int;
    x == y || (65 <= x <= 90 && y == x + 32) || (97 <= x <= 122 && y == x - 32)
}

/// Pattern `p` from position `i` matches text `s` from position `j`.
pub open spec fn like_from(p: Seq<char>, s: Seq<char>, i: int, j: int) -> bool
    decreases p.len() - i, s.len() - j,
{
    if i < 0 || j < 0 {
        false
    } else if i >= p.len() {
        j >= s.len()
    } else if p[i] == '%' {
        like_from(p, s, i + 1, j) || (j < s.len() && like_from(p, s, i, j + 1))
    } else if j >= s.len() {
        false
    } else if p[i] == '_' {
        like_from(p, s, i + 1, j + 1)
    } else {
        same_letter(p[i], s[j]) && like_from(p, s, i + 1, j + 1)
    }
}

/// Text `s` matches pattern `p`.
pub open spec fn like(p: Seq<char>, s: Seq<char>) -> bool {
    like_from(p, s, 0, 0)
}

/// Whether two characters match in a pattern.
pub fn same_letter_exec(a: char, b: char) -> (r: bool)
    ensures
        r == same_letter(a, b),
{
    let x = a as u32;
    let y = b as u32;
    x == y || (65 <= x && x <= 90 && y == x + 32) || (97 <= x && x <= 122 && y + 32 == x)
}

/// The characters of a text, one by one.
pub fn chars_of(s: &str) -> (v: Vec<char>)
    ensures
        v@ == s@,
{
    let n = s.unicode_len();
    let mut v: Vec<char> = Vec::new();
    let mut i: usize = 0;
    while i < n
        invariant
            n == s@.len(),
            i <= n,
            v@ == s@.take(i as int),
        decreases n - i,
    {
        v.push(s.get_char(i));
        assert(v@ =~= s@.take(i + 1));
        i = i + 1;
    }
    assert(s@.take(n as int) =~= s@);
    v
}

/// Whether `text` matches `pattern` (see `like`).
pub fn sql_like(pattern: &Vec<char>, text: &Vec<char>) -> (r: bool)
    requires
        text.len() < usize::MAX,
    ensures
        r == like(pattern@, text@),
{
    let np = pattern.len();
    let ns = text.len();
    let ghost p = pattern@;
    let ghost s = text@;
    // the row for the empty rest of the pattern
    let mut next: Vec<bool> = Vec::new();
    let mut j: usize = 0;
    while j <= ns
        invariant
            ns == s.len(),
            ns < usize::MAX,
            np == p.len(),
            j <= ns + 1,
            next.len() == j,
            forall|k: int| 0 <= k < j ==> #[trigger] next[k] == like_from(p, s, np as int, k),
        decreases ns + 1 - j,
    {
        next.push(j == ns);
        j = j + 1;
    }
    let mut i: usize = np;
    while i > 0
        invariant
            ns == s.len(),
            ns < usize::MAX,
            np == p.len(),
            p == pattern@,
            s == text@,
            i <= np,
            next.len() == ns + 1,
            forall|k: int| 0 <= k <= ns ==> #[trigger] next[k] == like_from(p, s, i as int, k),
        decreases i,
    {
        let pi = i - 1;
        let pc = pattern[pi];
        let mut row: Vec<bool> = Vec::new();
        let mut f: usize = 0;
        while f <= ns
            invariant
                ns < usize::MAX,
                f <= ns + 1,
                row.len() == f,
            decreases ns + 1 - f,
        {
            row.push(false);
            f = f + 1;
        }
        let mut jj: usize = ns + 1;
        while jj > 0
            invariant
                ns == s.len(),
                ns < usize::MAX,
                np == p.len(),
                p == pattern@,
                s == text@,
                pi < np,
                pc == p[pi as int],
                jj <= ns + 1,
                row.len() == ns + 1,
                next.len() == ns + 1,
                forall|k: int| 0 <= k <= ns ==> #[trigger] next[k] == like_from(p, s, pi + 1, k),
                forall|k: int| jj <= k <= ns ==> #[trigger] row[k] == like_from(p, s, pi as int, k),
            decreases jj,
        {
            let j = jj - 1;
            let v = if pc == '%' {
                next[j] || (j < ns && row[j + 1])
            } else if j >= ns {
                false
            } else if pc == '_' {
                next[j + 1]
            } else {
                same_letter_exec(pc, text[j]) && next[j + 1]
            };
            assert(v == like_from(p, s, pi as int, j as int));
            row.set(j, v);
            jj = j;
        }
        next = row;
        i = pi;
    }
    next[0]
}

} // verus!
