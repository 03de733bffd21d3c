//! Cell-text normalization and the character-level helpers the rest of
//! the crate shares: case-insensitive tag comparison, whitespace
//! collapsing, markup stripping and trimming.

use vstd::prelude::*;

verus! {

/// A whitespace character, per the Unicode `White_Space` property:
/// exactly the characters the normalizer collapses.
pub open spec fn is_ws(c: char) -> bool {
    ||| c == ' '
    ||| c == '\t'
    ||| c == '\n'
    ||| c == '\u{0B}'
    ||| c == '\u{0C}'
    ||| c == '\r'
    ||| c == '\u{85}'
    ||| c == '\u{A0}'
    ||| c == '\u{1680}'
    ||| c == '\u{2000}'
    ||| c == '\u{2001}'
    ||| c == '\u{2002}'
    ||| c == '\u{2003}'
    ||| c == '\u{2004}'
    ||| c == '\u{2005}'
    ||| c == '\u{2006}'
    ||| c == '\u{2007}'
    ||| c == '\u{2008}'
    ||| c == '\u{2009}'
    ||| c == '\u{200A}'
    ||| c == '\u{2028}'
    ||| c == '\u{2029}'
    ||| c == '\u{202F}'
    ||| c == '\u{205F}'
    ||| c == '\u{3000}'
}

pub fn is_ws_char(c: char) -> (r: bool)
    ensures
        r == is_ws(c),
{
    c == ' ' || c == '\t' || c == '\n' || c == '\u{0B}' || c == '\u{0C}' || c == '\r'
        || c == '\u{85}' || c == '\u{A0}' || c == '\u{1680}' || c == '\u{2000}'
        || c == '\u{2001}' || c == '\u{2002}' || c == '\u{2003}' || c == '\u{2004}'
        || c == '\u{2005}' || c == '\u{2006}' || c == '\u{2007}' || c == '\u{2008}'
        || c == '\u{2009}' || c == '\u{200A}' || c == '\u{2028}' || c == '\u{2029}'
        || c == '\u{202F}' || c == '\u{205F}' || c == '\u{3000}'
}

/// The code point of `c` with an ASCII capital letter folded to its
/// lower-case counterpart.
pub open spec fn lower_code(c: char) -> int {
    if 65 <= c as int && c as int <= 90 {
        c as int + 32
    } else {
        c as int
    }
}

/// Two character sequences are equal up to ASCII case.
pub open spec fn eq_ci(a: Seq<char>, b: Seq<char>) -> bool {
    a.len() == b.len() && forall|i: int| 0 <= i < a.len() ==> lower_code(a[i]) == lower_code(b[i])
}

pub fn char_eq_ci(a: char, b: char) -> (r: bool)
    ensures
        r == (lower_code(a) == lower_code(b)),
{
    let x = a as u32;
    let y = b as u32;
    let x = if 65 <= x && x <= 90 { x + 32 } else { x };
    let y = if 65 <= y && y <= 90 { y + 32 } else { y };
    x == y
}

/// Exact string equality, decided character by character.
pub fn str_eq(a: &str, b: &str) -> (r: bool)
    ensures
        r == (a@ == b@),
{
    let an = a.unicode_len();
    let bn = b.unicode_len();
    if an != bn {
        return false;
    }
    let mut i: usize = 0;
    while i < an
        invariant
            an == a@.len(),
            an == b@.len(),
            i <= an,
            forall|k: int| 0 <= k < i ==> a@[k] == b@[k],
        decreases an - i,
    {
        if a.get_char(i) != b.get_char(i) {
            return false;
        }
        i += 1;
    }
    proof {
        assert(a@ =~= b@);
    }
    true
}

/// String equality up to ASCII case.
pub fn str_eq_ci(a: &str, b: &str) -> (r: bool)
    ensures
        r == eq_ci(a@, b@),
{
    let an = a.unicode_len();
    let bn = b.unicode_len();
    if an != bn {
        return false;
    }
    let mut i: usize = 0;
    while i < an
        invariant
            an == a@.len(),
            an == b@.len(),
            i <= an,
            forall|k: int| 0 <= k < i ==> lower_code(a@[k]) == lower_code(b@[k]),
        decreases an - i,
    {
        if !char_eq_ci(a.get_char(i), b.get_char(i)) {
            return false;
        }
        i += 1;
    }
    true
}

/// Relies on String::push: appends exactly the given character.
#[verifier::external_body]
fn push_char(s: &mut String, c: char)
    ensures
        final(s)@ == old(s)@.push(c),
{
    s.push(c);
}

/// Index of the first `'>'` in `u`, or `u.len()` when there is none.
pub open spec fn first_gt(u: Seq<char>) -> nat
    decreases u.len(),
{
    if u.len() == 0 {
        0
    } else if u[0] == '>' {
        0
    } else {
        (1 + first_gt(u.skip(1))) as nat
    }
}

pub proof fn lemma_first_gt(u: Seq<char>)
    ensures
        first_gt(u) <= u.len(),
        first_gt(u) < u.len() ==> u[first_gt(u) as int] == '>',
        forall|k: int| 0 <= k < first_gt(u) ==> u[k] != '>',
        first_gt(u) == u.len() ==> forall|k: int| 0 <= k < u.len() ==> u[k] != '>',
    decreases u.len(),
{
    if u.len() == 0 {
    } else if u[0] == '>' {
    } else {
        lemma_first_gt(u.skip(1));
        assert forall|k: int| 0 <= k < first_gt(u) implies u[k] != '>' by {
            if k > 0 {
                assert(u.skip(1)[k - 1] != '>');
            }
        }
        if first_gt(u) == u.len() {
            assert forall|k: int| 0 <= k < u.len() implies u[k] != '>' by {
                if k > 0 {
                    assert(u.skip(1)[k - 1] != '>');
                }
            }
        }
    }
}

/// The markup-stripping pass: every span that opens with `'<'` and runs
/// to the next `'>'` is removed; a `'<'` with no later `'>'` is kept as
/// ordinary text.
pub open spec fn strip_tags(u: Seq<char>) -> Seq<char>
    decreases u.len(),
{
    if u.len() == 0 {
        Seq::empty()
    } else {
        let g = first_gt(u) as int;
        if u[0] == '<' && g < u.len() {
            strip_tags(u.skip(g + 1))
        } else {
            seq![u[0]] + strip_tags(u.skip(1))
        }
    }
}

/// The whitespace-collapsing pass, one character at a time; `prev_ws`
/// records whether the previous kept character position ended inside a
/// whitespace run.
pub open spec fn collapse_from(u: Seq<char>, prev_ws: bool) -> Seq<char>
    decreases u.len(),
{
    if u.len() == 0 {
        Seq::empty()
    } else if is_ws(u[0]) {
        if prev_ws {
            collapse_from(u.skip(1), true)
        } else {
            seq![' '] + collapse_from(u.skip(1), true)
        }
    } else {
        seq![u[0]] + collapse_from(u.skip(1), false)
    }
}

/// Every run of whitespace becomes a single space.
pub open spec fn collapse_ws(u: Seq<char>) -> Seq<char> {
    collapse_from(u, false)
}

pub open spec fn trim_start(u: Seq<char>) -> Seq<char>
    decreases u.len(),
{
    if u.len() > 0 && is_ws(u[0]) {
        trim_start(u.skip(1))
    } else {
        u
    }
}

pub open spec fn trim_end(u: Seq<char>) -> Seq<char>
    decreases u.len(),
{
    if u.len() > 0 && is_ws(u.last()) {
        trim_end(u.drop_last())
    } else {
        u
    }
}

/// Leading and trailing whitespace removed.
pub open spec fn trim(u: Seq<char>) -> Seq<char> {
    trim_end(trim_start(u))
}

/// The whole normalization: markup stripped, whitespace collapsed to
/// single spaces, then trimmed.
pub open spec fn clean_text(u: Seq<char>) -> Seq<char> {
    trim(collapse_ws(strip_tags(u)))
}

pub fn strip_markup(s: &str) -> (r: String)
    ensures
        r@ == strip_tags(s@),
{
    let n = s.unicode_len();
    let mut out = String::new();
    let mut i: usize = 0;
    proof {
        assert(s@.skip(0) =~= s@);
        assert(out@ + strip_tags(s@) =~= strip_tags(s@));
    }
    while i < n
        invariant
            n == s@.len(),
            i <= n,
            out@ + strip_tags(s@.skip(i as int)) == strip_tags(s@),
        decreases n - i,
    {
        let ghost u = s@.skip(i as int);
        let c = s.get_char(i);
        let mut consumed = false;
        if c == '<' {
            let mut j: usize = i + 1;
            while j < n && s.get_char(j) != '>'
                invariant
                    n == s@.len(),
                    i < j <= n,
                    forall|k: int| i < k < j ==> s@[k] != '>',
                decreases n - j,
            {
                j += 1;
            }
            proof {
                lemma_first_gt(u);
                assert forall|k: int| 0 <= k < j - i implies u[k] != '>' by {
                    assert(u[k] == s@[i + k]);
                }
            }
            if j < n {
                proof {
                    assert(u[j - i] == s@[j as int]);
                    assert(u[j - i] == '>');
                    assert(first_gt(u) == j - i);
                    assert(u.skip(j - i + 1) =~= s@.skip(j + 1));
                }
                i = j + 1;
                consumed = true;
            } else {
                proof {
                    assert(first_gt(u) >= u.len());
                }
            }
        }
        if !consumed {
            proof {
                assert(strip_tags(u) == seq![u[0]] + strip_tags(u.skip(1)));
                assert(u[0] == c);
                assert(u.skip(1) =~= s@.skip(i + 1));
                assert(out@.push(c) + strip_tags(s@.skip(i + 1)) =~= out@ + strip_tags(
                    s@.skip(i as int),
                ));
            }
            push_char(&mut out, c);
            i += 1;
        }
    }
    proof {
        assert(s@.skip(n as int) =~= Seq::<char>::empty());
        assert(out@ =~= out@ + strip_tags(s@.skip(n as int)));
    }
    out
}

pub fn collapse_whitespace(s: &str) -> (r: String)
    ensures
        r@ == collapse_ws(s@),
{
    let n = s.unicode_len();
    let mut out = String::new();
    let mut prev_ws = false;
    let mut i: usize = 0;
    proof {
        assert(s@.skip(0) =~= s@);
        assert(out@ + collapse_from(s@, false) =~= collapse_from(s@, false));
    }
    while i < n
        invariant
            n == s@.len(),
            i <= n,
            out@ + collapse_from(s@.skip(i as int), prev_ws) == collapse_from(s@, false),
        decreases n - i,
    {
        let ghost u = s@.skip(i as int);
        let c = s.get_char(i);
        proof {
            assert(u[0] == c);
            assert(u.skip(1) =~= s@.skip(i + 1));
        }
        if is_ws_char(c) {
            if !prev_ws {
                proof {
                    assert(out@.push(' ') + collapse_from(s@.skip(i + 1), true) =~= out@
                        + collapse_from(u, false));
                }
                push_char(&mut out, ' ');
            }
            prev_ws = true;
        } else {
            proof {
                assert(out@.push(c) + collapse_from(s@.skip(i + 1), false) =~= out@
                    + collapse_from(u, prev_ws));
            }
            push_char(&mut out, c);
            prev_ws = false;
        }
        i += 1;
    }
    proof {
        assert(s@.skip(n as int) =~= Seq::<char>::empty());
        assert(out@ =~= out@ + collapse_from(s@.skip(n as int), prev_ws));
    }
    out
}

proof fn lemma_trim_start_skip(u: Seq<char>, a: int)
    requires
        0 <= a <= u.len(),
        forall|k: int| 0 <= k < a ==> is_ws(u[k]),
        a < u.len() ==> !is_ws(u[a]),
    ensures
        trim_start(u) == u.skip(a),
    decreases a,
{
    if a == 0 {
        assert(u.skip(0) =~= u);
    } else {
        lemma_trim_start_skip(u.skip(1), a - 1);
        assert forall|k: int| 0 <= k < a - 1 implies is_ws(u.skip(1)[k]) by {
            assert(u.skip(1)[k] == u[k + 1]);
        }
        assert(u.skip(1).skip(a - 1) =~= u.skip(a));
    }
}

proof fn lemma_trim_end_take(u: Seq<char>, b: int)
    requires
        0 <= b <= u.len(),
        forall|k: int| b <= k < u.len() ==> is_ws(u[k]),
        b > 0 ==> !is_ws(u[b - 1]),
    ensures
        trim_end(u) == u.take(b),
    decreases u.len() - b,
{
    if b == u.len() {
        assert(u.take(b) =~= u);
    } else {
        lemma_trim_end_take(u.drop_last(), b);
        assert(u.drop_last().take(b) =~= u.take(b));
    }
}

pub fn trim_text(s: &str) -> (r: String)
    ensures
        r@ == trim(s@),
{
    let n = s.unicode_len();
    let mut a: usize = 0;
    while a < n && is_ws_char(s.get_char(a))
        invariant
            n == s@.len(),
            a <= n,
            forall|k: int| 0 <= k < a ==> is_ws(s@[k]),
        decreases n - a,
    {
        a += 1;
    }
    let mut b: usize = n;
    while b > a && is_ws_char(s.get_char(b - 1))
        invariant
            n == s@.len(),
            a <= b <= n,
            forall|k: int| b <= k < n ==> is_ws(s@[k]),
        decreases b,
    {
        b -= 1;
    }
    proof {
        lemma_trim_start_skip(s@, a as int);
        let v = s@.skip(a as int);
        lemma_trim_end_take(v, b - a);
        assert forall|k: int| b - a <= k < v.len() implies is_ws(v[k]) by {
            assert(v[k] == s@[a + k]);
        }
        if b > a {
            assert(v[b - a - 1] == s@[b - 1]);
        }
        assert(v.take(b - a) =~= s@.subrange(a as int, b as int));
    }
    let piece = s.substring_char(a, b);
    String::from_str(piece)
}

/// No removable markup span is left: no `'<'` is ever followed,
/// anywhere later, by a `'>'`.
pub open spec fn markup_free(u: Seq<char>) -> bool {
    forall|i: int, j: int| 0 <= i < j < u.len() ==> !(u[i] == '<' && u[j] == '>')
}

/// Whitespace is already collapsed: every whitespace character is a
/// single space not followed by further whitespace.
pub open spec fn collapsed_ws(u: Seq<char>) -> bool {
    forall|i: int|
        0 <= i < u.len() && is_ws(#[trigger] u[i]) ==> u[i] == ' ' && (i + 1 < u.len()
            ==> !is_ws(u[i + 1]))
}

proof fn lemma_strip_no_gt(u: Seq<char>)
    requires
        forall|k: int| 0 <= k < u.len() ==> u[k] != '>',
    ensures
        strip_tags(u) == u,
    decreases u.len(),
{
    lemma_first_gt(u);
    if u.len() == 0 {
        assert(strip_tags(u) =~= u);
    } else {
        assert forall|k: int| 0 <= k < u.skip(1).len() implies u.skip(1)[k] != '>' by {
            assert(u.skip(1)[k] == u[k + 1]);
        }
        lemma_strip_no_gt(u.skip(1));
        assert(strip_tags(u) =~= u);
    }
}

proof fn lemma_strip_markup_free(u: Seq<char>)
    ensures
        markup_free(strip_tags(u)),
    decreases u.len(),
{
    lemma_first_gt(u);
    if u.len() == 0 {
    } else {
        let g = first_gt(u) as int;
        if u[0] == '<' && g < u.len() {
            lemma_strip_markup_free(u.skip(g + 1));
        } else {
            lemma_strip_markup_free(u.skip(1));
            let w = strip_tags(u.skip(1));
            if u[0] == '<' {
                assert forall|k: int| 0 <= k < u.skip(1).len() implies u.skip(1)[k] != '>' by {
                    assert(u.skip(1)[k] == u[k + 1]);
                }
                lemma_strip_no_gt(u.skip(1));
            }
            let r = seq![u[0]] + w;
            assert forall|i: int, j: int| 0 <= i < j < r.len() implies !(r[i] == '<' && r[j]
                == '>') by {
                if i > 0 {
                    assert(r[i] == w[i - 1] && r[j] == w[j - 1]);
                }
            }
        }
    }
}

proof fn lemma_markup_free_strip_id(u: Seq<char>)
    requires
        markup_free(u),
    ensures
        strip_tags(u) == u,
    decreases u.len(),
{
    lemma_first_gt(u);
    if u.len() == 0 {
        assert(strip_tags(u) =~= u);
    } else {
        let g = first_gt(u) as int;
        if u[0] == '<' && g < u.len() {
            assert(u[g] == '>');
            assert(false);
        } else {
            assert forall|i: int, j: int|
                0 <= i < j < u.skip(1).len() implies !(u.skip(1)[i] == '<' && u.skip(1)[j]
                == '>') by {
                assert(u.skip(1)[i] == u[i + 1] && u.skip(1)[j] == u[j + 1]);
            }
            lemma_markup_free_strip_id(u.skip(1));
            assert(strip_tags(u) =~= u);
        }
    }
}

proof fn lemma_collapse_no_gt(u: Seq<char>, b: bool)
    requires
        forall|k: int| 0 <= k < u.len() ==> u[k] != '>',
    ensures
        forall|k: int| 0 <= k < collapse_from(u, b).len() ==> collapse_from(u, b)[k] != '>',
    decreases u.len(),
{
    if u.len() > 0 {
        assert forall|k: int| 0 <= k < u.skip(1).len() implies u.skip(1)[k] != '>' by {
            assert(u.skip(1)[k] == u[k + 1]);
        }
        lemma_collapse_no_gt(u.skip(1), true);
        lemma_collapse_no_gt(u.skip(1), false);
        let r = collapse_from(u, b);
        assert forall|k: int| 0 <= k < r.len() implies r[k] != '>' by {
            if is_ws(u[0]) {
                if b {
                    assert(r == collapse_from(u.skip(1), true));
                    assert(r[k] == collapse_from(u.skip(1), true)[k]);
                } else {
                    if k == 0 {
                        assert(r[0] == ' ');
                    } else {
                        assert(r[k] == collapse_from(u.skip(1), true)[k - 1]);
                    }
                }
            } else {
                if k == 0 {
                    assert(r[0] == u[0]);
                    assert(u[0] != '>');
                } else {
                    assert(r[k] == collapse_from(u.skip(1), false)[k - 1]);
                }
            }
        }
    }
}

proof fn lemma_markup_free_tail(u: Seq<char>)
    requires
        markup_free(u),
        u.len() > 0,
    ensures
        markup_free(u.skip(1)),
{
    assert forall|i: int, j: int|
        0 <= i < j < u.skip(1).len() implies !(u.skip(1)[i] == '<' && u.skip(1)[j] == '>') by {
        assert(u.skip(1)[i] == u[i + 1] && u.skip(1)[j] == u[j + 1]);
    }
}

proof fn lemma_collapse_markup_free(u: Seq<char>, b: bool)
    requires
        markup_free(u),
    ensures
        markup_free(collapse_from(u, b)),
    decreases u.len(),
{
    if u.len() > 0 {
        lemma_markup_free_tail(u);
        lemma_collapse_markup_free(u.skip(1), true);
        lemma_collapse_markup_free(u.skip(1), false);
        if is_ws(u[0]) {
            if !b {
                let w = collapse_from(u.skip(1), true);
                let r = seq![' '] + w;
                assert forall|i: int, j: int| 0 <= i < j < r.len() implies !(r[i] == '<' && r[j]
                    == '>') by {
                    if i > 0 {
                        assert(r[i] == w[i - 1] && r[j] == w[j - 1]);
                    }
                }
            }
        } else {
            let w = collapse_from(u.skip(1), false);
            let r = seq![u[0]] + w;
            if u[0] == '<' {
                assert forall|k: int| 0 <= k < u.skip(1).len() implies u.skip(1)[k] != '>' by {
                    assert(u.skip(1)[k] == u[k + 1]);
                }
                lemma_collapse_no_gt(u.skip(1), false);
            }
            assert forall|i: int, j: int| 0 <= i < j < r.len() implies !(r[i] == '<' && r[j]
                == '>') by {
                if i > 0 {
                    assert(r[i] == w[i - 1] && r[j] == w[j - 1]);
                }
            }
        }
    }
}

proof fn lemma_collapse_out_collapsed(u: Seq<char>, b: bool)
    ensures
        collapsed_ws(collapse_from(u, b)),
        b && collapse_from(u, b).len() > 0 ==> !is_ws(collapse_from(u, b)[0]),
    decreases u.len(),
{
    if u.len() > 0 {
        lemma_collapse_out_collapsed(u.skip(1), true);
        lemma_collapse_out_collapsed(u.skip(1), false);
        if is_ws(u[0]) {
            if !b {
                let w = collapse_from(u.skip(1), true);
                let r = seq![' '] + w;
                assert forall|i: int|
                    0 <= i < r.len() && is_ws(#[trigger] r[i]) implies r[i] == ' ' && (i + 1
                    < r.len() ==> !is_ws(r[i + 1])) by {
                    if i > 0 {
                        assert(r[i] == w[i - 1]);
                        if i + 1 < r.len() {
                            assert(r[i + 1] == w[i]);
                        }
                    } else {
                        if r.len() > 1 {
                            assert(r[1] == w[0]);
                        }
                    }
                }
            }
        } else {
            let w = collapse_from(u.skip(1), false);
            let r = seq![u[0]] + w;
            assert forall|i: int|
                0 <= i < r.len() && is_ws(#[trigger] r[i]) implies r[i] == ' ' && (i + 1 < r.len()
                ==> !is_ws(r[i + 1])) by {
                if i > 0 {
                    assert(r[i] == w[i - 1]);
                    if i + 1 < r.len() {
                        assert(r[i + 1] == w[i]);
                    }
                }
            }
        }
    }
}

proof fn lemma_collapsed_tail(u: Seq<char>)
    requires
        collapsed_ws(u),
        u.len() > 0,
    ensures
        collapsed_ws(u.skip(1)),
{
    assert forall|i: int|
        0 <= i < u.skip(1).len() && is_ws(#[trigger] u.skip(1)[i]) implies u.skip(1)[i] == ' ' && (
    i + 1 < u.skip(1).len() ==> !is_ws(u.skip(1)[i + 1])) by {
        assert(u.skip(1)[i] == u[i + 1]);
        if i + 1 < u.skip(1).len() {
            assert(u.skip(1)[i + 1] == u[i + 2]);
        }
    }
}

proof fn lemma_collapsed_id(u: Seq<char>, b: bool)
    requires
        collapsed_ws(u),
        b ==> (u.len() > 0 ==> !is_ws(u[0])),
    ensures
        collapse_from(u, b) == u,
    decreases u.len(),
{
    if u.len() == 0 {
        assert(collapse_from(u, b) =~= u);
    } else {
        lemma_collapsed_tail(u);
        if is_ws(u[0]) {
            assert(u[0] == ' ');
            if u.skip(1).len() > 0 {
                assert(!is_ws(u[1]));
                assert(u.skip(1)[0] == u[1]);
            }
            lemma_collapsed_id(u.skip(1), true);
            assert(collapse_from(u, b) =~= u);
        } else {
            lemma_collapsed_id(u.skip(1), false);
            assert(collapse_from(u, b) =~= u);
        }
    }
}

proof fn lemma_trim_start_no_lead(u: Seq<char>)
    ensures
        trim_start(u).len() > 0 ==> !is_ws(trim_start(u)[0]),
        trim_start(u).len() <= u.len(),
    decreases u.len(),
{
    if u.len() > 0 && is_ws(u[0]) {
        lemma_trim_start_no_lead(u.skip(1));
    }
}

proof fn lemma_trim_end_prefix(u: Seq<char>)
    ensures
        trim_end(u).len() <= u.len(),
        forall|i: int| 0 <= i < trim_end(u).len() ==> #[trigger] trim_end(u)[i] == u[i],
        trim_end(u).len() > 0 ==> !is_ws(trim_end(u).last()),
    decreases u.len(),
{
    if u.len() > 0 && is_ws(u.last()) {
        lemma_trim_end_prefix(u.drop_last());
    }
}

proof fn lemma_trim_start_preserves(u: Seq<char>)
    requires
        markup_free(u),
        collapsed_ws(u),
    ensures
        markup_free(trim_start(u)),
        collapsed_ws(trim_start(u)),
    decreases u.len(),
{
    if u.len() > 0 && is_ws(u[0]) {
        lemma_markup_free_tail(u);
        lemma_collapsed_tail(u);
        lemma_trim_start_preserves(u.skip(1));
    }
}

proof fn lemma_trim_end_preserves(u: Seq<char>)
    requires
        markup_free(u),
        collapsed_ws(u),
    ensures
        markup_free(trim_end(u)),
        collapsed_ws(trim_end(u)),
{
    lemma_trim_end_prefix(u);
    let r = trim_end(u);
    assert forall|i: int, j: int| 0 <= i < j < r.len() implies !(r[i] == '<' && r[j] == '>') by {
        assert(r[i] == u[i] && r[j] == u[j]);
    }
    assert forall|i: int|
        0 <= i < r.len() && is_ws(#[trigger] r[i]) implies r[i] == ' ' && (i + 1 < r.len()
        ==> !is_ws(r[i + 1])) by {
        assert(r[i] == u[i]);
        if i + 1 < r.len() {
            assert(r[i + 1] == u[i + 1]);
        }
    }
}

/// Law: normalization is idempotent — normalizing text that is already
/// normalized leaves it unchanged.
pub proof fn lemma_clean_idempotent(u: Seq<char>)
    ensures
        clean_text(clean_text(u)) == clean_text(u),
{
    let s1 = strip_tags(u);
    lemma_strip_markup_free(u);
    let s2 = collapse_from(s1, false);
    lemma_collapse_markup_free(s1, false);
    lemma_collapse_out_collapsed(s1, false);
    let s3 = trim_start(s2);
    lemma_trim_start_preserves(s2);
    lemma_trim_start_no_lead(s2);
    let t = trim_end(s3);
    lemma_trim_end_preserves(s3);
    lemma_trim_end_prefix(s3);
    assert(t == clean_text(u));
    assert(markup_free(t));
    assert(collapsed_ws(t));
    if t.len() > 0 {
        assert(t[0] == s3[0]);
        assert(!is_ws(t[0]));
    }
    lemma_markup_free_strip_id(t);
    lemma_collapsed_id(t, false);
    assert(trim_start(t) == t);
    assert(trim_end(t) == t);
}

/// Full cell normalization, as a single function over the raw inner
/// markup of a cell.
pub fn clean_cell_text(s: &str) -> (r: String)
    ensures
        r@ == clean_text(s@),
{
    let stripped = strip_markup(s);
    let collapsed = collapse_whitespace(stripped.as_str());
    trim_text(collapsed.as_str())
}

/// A field must be quoted when it holds a comma, a quote, or a line
/// break.
pub open spec fn needs_quoting(f: Seq<char>) -> bool {
    exists|i: int|
        0 <= i < f.len() && (#[trigger] f[i] == ',' || f[i] == '"' || f[i] == '\n' || f[i] == '\r')
}

/// Every quote doubled, all other characters kept.
pub open spec fn escape_quotes(f: Seq<char>) -> Seq<char>
    decreases f.len(),
{
    if f.len() == 0 {
        Seq::empty()
    } else if f[0] == '"' {
        seq!['"', '"'] + escape_quotes(f.skip(1))
    } else {
        seq![f[0]] + escape_quotes(f.skip(1))
    }
}

/// One rendered field: quoted and escaped when needed, verbatim
/// otherwise.
pub open spec fn csv_field(f: Seq<char>) -> Seq<char> {
    if needs_quoting(f) {
        seq!['"'] + escape_quotes(f) + seq!['"']
    } else {
        f
    }
}

/// One rendered line: the fields, each rendered, joined by commas.
pub open spec fn csv_line_text(fields: Seq<Seq<char>>) -> Seq<char>
    decreases fields.len(),
{
    if fields.len() == 0 {
        Seq::empty()
    } else if fields.len() == 1 {
        csv_field(fields[0])
    } else {
        csv_line_text(fields.drop_last()) + seq![','] + csv_field(fields.last())
    }
}

fn field_needs_quoting(f: &str) -> (b: bool)
    ensures
        b == needs_quoting(f@),
{
    let n = f.unicode_len();
    let mut i: usize = 0;
    while i < n
        invariant
            n == f@.len(),
            i <= n,
            forall|k: int|
                0 <= k < i ==> !(#[trigger] f@[k] == ',' || f@[k] == '"' || f@[k] == '\n' || f@[k]
                    == '\r'),
        decreases n - i,
    {
        let c = f.get_char(i);
        if c == ',' || c == '"' || c == '\n' || c == '\r' {
            return true;
        }
        i += 1;
    }
    false
}

/// Render one field, applying standard quoting rules.
pub fn csv_quote_field(f: &str) -> (r: String)
    ensures
        r@ == csv_field(f@),
{
    if !field_needs_quoting(f) {
        return String::from_str(f);
    }
    let n = f.unicode_len();
    let mut out = String::new();
    push_char(&mut out, '"');
    let mut i: usize = 0;
    proof {
        assert(f@.skip(0) =~= f@);
        assert(out@ + escape_quotes(f@) =~= seq!['"'] + escape_quotes(f@));
    }
    while i < n
        invariant
            n == f@.len(),
            i <= n,
            out@ + escape_quotes(f@.skip(i as int)) == seq!['"'] + escape_quotes(f@),
        decreases n - i,
    {
        let ghost u = f@.skip(i as int);
        let c = f.get_char(i);
        proof {
            assert(u[0] == c);
            assert(u.skip(1) =~= f@.skip(i + 1));
        }
        if c == '"' {
            push_char(&mut out, '"');
            push_char(&mut out, '"');
            proof {
                assert(out@ + escape_quotes(f@.skip(i + 1)) =~= seq!['"'] + escape_quotes(f@));
            }
        } else {
            push_char(&mut out, c);
            proof {
                assert(out@ + escape_quotes(f@.skip(i + 1)) =~= seq!['"'] + escape_quotes(f@));
            }
        }
        i += 1;
    }
    proof {
        assert(f@.skip(n as int) =~= Seq::<char>::empty());
        assert(out@ =~= seq!['"'] + escape_quotes(f@));
    }
    push_char(&mut out, '"');
    proof {
        assert(out@ =~= csv_field(f@));
    }
    out
}

/// Render one comma-joined line from the given fields, with standard
/// quoting of embedded commas, quotes and line breaks.
pub fn csv_line(fields: &Vec<String>) -> (r: String)
    ensures
        r@ == csv_line_text(fields.deep_view()),
{
    let n = fields.len();
    let mut out = String::new();
    let mut i: usize = 0;
    proof {
        assert(fields.deep_view().take(0) =~= Seq::<Seq<char>>::empty());
    }
    while i < n
        invariant
            n == fields@.len(),
            n == fields.deep_view().len(),
            i <= n,
            out@ == csv_line_text(fields.deep_view().take(i as int)),
        decreases n - i,
    {
        let q = csv_quote_field(fields[i].as_str());
        if i > 0 {
            out.append(",");
        }
        out.append(q.as_str());
        proof {
            let dv = fields.deep_view();
            assert(dv[i as int] == fields@[i as int]@);
            assert(dv.take(i + 1).drop_last() =~= dv.take(i as int));
            assert(dv.take(i + 1).last() == dv[i as int]);
            if i == 0 {
                assert(out@ =~= csv_line_text(dv.take(1)));
            } else {
                reveal_strlit(",");
                assert(","@ =~= seq![',']);
                assert(out@ =~= csv_line_text(dv.take(i as int)) + seq![','] + csv_field(
                    dv[i as int],
                ));
                assert(out@ =~= csv_line_text(dv.take(i + 1)));
            }
        }
        i += 1;
    }
    proof {
        assert(fields.deep_view().take(n as int) =~= fields.deep_view());
    }
    out
}

} // verus!
