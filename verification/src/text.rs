//! Character-level text handling shared by the wire protocol and the games:
//! whitespace, trimming, tokenising, decimal numbers and string building.
use vstd::prelude::*;

verus! {

// ---------------------------------------------------------------------------
// Character classes
// ---------------------------------------------------------------------------

/// Unicode `White_Space`, the class that `char::is_whitespace` tests.
pub open spec fn is_ws(c: char) -> bool {
    let u = c as u32;
    ||| 9 <= u <= 13
    ||| u == 32
    ||| u == 0x85
    ||| u == 0xA0
    ||| u == 0x1680
    ||| 0x2000 <= u <= 0x200A
    ||| u == 0x2028
    ||| u == 0x2029
    ||| u == 0x202F
    ||| u == 0x205F
    ||| u == 0x3000
}

/// Unicode general category `Cc`, the class that `char::is_control` tests.
pub open spec fn is_ctrl(c: char) -> bool {
    let u = c as u32;
    u <= 0x1F || (0x7F <= u && u <= 0x9F)
}

pub open spec fn is_digit(c: char) -> bool {
    48 <= (c as u32) <= 57
}

pub open spec fn digit_val(c: char) -> nat {
    ((c as u32) - 48) as nat
}

pub open spec fn digit_char(d: nat) -> char {
    (d + 48) as char
}

pub fn is_whitespace(c: char) -> (b: bool)
    ensures
        b == is_ws(c),
{
    let u = c as u32;
    (9 <= u && u <= 13) || u == 32 || u == 0x85 || u == 0xA0 || u == 0x1680 || (0x2000 <= u
        && u <= 0x200A) || u == 0x2028 || u == 0x2029 || u == 0x202F || u == 0x205F || u
        == 0x3000
}

pub fn is_control(c: char) -> (b: bool)
    ensures
        b == is_ctrl(c),
{
    let u = c as u32;
    u <= 0x1F || (0x7F <= u && u <= 0x9F)
}

// ---------------------------------------------------------------------------
// Whitespace, trimming and tokens (over character sequences)
// ---------------------------------------------------------------------------

/// Number of leading whitespace characters.
pub open spec fn lead_ws(s: Seq<char>) -> nat
    decreases s.len(),
{
    if s.len() > 0 && is_ws(s[0]) {
        1 + lead_ws(s.drop_first())
    } else {
        0
    }
}

/// Number of trailing whitespace characters.
pub open spec fn trail_ws(s: Seq<char>) -> nat
    decreases s.len(),
{
    if s.len() > 0 && is_ws(s.last()) {
        1 + trail_ws(s.drop_last())
    } else {
        0
    }
}

/// Index of the first whitespace character, or the length when there is none.
pub open spec fn first_ws(s: Seq<char>) -> nat
    decreases s.len(),
{
    if s.len() == 0 || is_ws(s[0]) {
        0
    } else {
        1 + first_ws(s.drop_first())
    }
}

pub open spec fn trim_start(s: Seq<char>) -> Seq<char> {
    s.subrange(lead_ws(s) as int, s.len() as int)
}

pub open spec fn trim_end(s: Seq<char>) -> Seq<char> {
    s.subrange(0, s.len() - trail_ws(s))
}

/// `str::trim`: both ends stripped of whitespace.
pub open spec fn trim(s: Seq<char>) -> Seq<char> {
    trim_end(trim_start(s))
}

/// The first whitespace-delimited word of `s` and the rest after it, with
/// leading whitespace removed from both.
pub open spec fn split_first(s: Seq<char>) -> (Seq<char>, Seq<char>) {
    let t = trim_start(s);
    let i = first_ws(t);
    (t.subrange(0, i as int), trim_start(t.subrange(i as int, t.len() as int)))
}

/// `str::split_whitespace`: the maximal runs of non-whitespace characters.
pub open spec fn tokens(s: Seq<char>) -> Seq<Seq<char>>
    decreases s.len(),
{
    let t = trim_start(s);
    if t.len() == 0 {
        seq![]
    } else {
        let i = first_ws(t);
        proof {
            lemma_lead_ws(s);
            lemma_first_ws(t);
        }
        seq![t.subrange(0, i as int)] + tokens(t.subrange(i as int, t.len() as int))
    }
}

pub proof fn lemma_lead_ws(s: Seq<char>)
    ensures
        lead_ws(s) <= s.len(),
        forall|k: int| 0 <= k < lead_ws(s) ==> is_ws(#[trigger] s[k]),
        lead_ws(s) < s.len() ==> !is_ws(s[lead_ws(s) as int]),
    decreases s.len(),
{
    if s.len() > 0 && is_ws(s[0]) {
        lemma_lead_ws(s.drop_first());
        assert forall|k: int| 0 <= k < lead_ws(s) implies is_ws(#[trigger] s[k]) by {
            if k > 0 {
                assert(s[k] == s.drop_first()[k - 1]);
            }
        }
    }
}

pub proof fn lemma_trail_ws(s: Seq<char>)
    ensures
        trail_ws(s) <= s.len(),
        forall|k: int| s.len() - trail_ws(s) <= k < s.len() ==> is_ws(#[trigger] s[k]),
        trail_ws(s) < s.len() ==> !is_ws(s[s.len() - trail_ws(s) - 1]),
    decreases s.len(),
{
    if s.len() > 0 && is_ws(s.last()) {
        lemma_trail_ws(s.drop_last());
        assert forall|k: int| s.len() - trail_ws(s) <= k < s.len() implies is_ws(
            #[trigger] s[k],
        ) by {
            if k < s.len() - 1 {
                assert(s[k] == s.drop_last()[k]);
            }
        }
    }
}

pub proof fn lemma_first_ws(s: Seq<char>)
    ensures
        first_ws(s) <= s.len(),
        forall|k: int| 0 <= k < first_ws(s) ==> !is_ws(#[trigger] s[k]),
        first_ws(s) < s.len() ==> is_ws(s[first_ws(s) as int]),
        s.len() > 0 && !is_ws(s[0]) ==> first_ws(s) > 0,
    decreases s.len(),
{
    if !(s.len() == 0 || is_ws(s[0])) {
        lemma_first_ws(s.drop_first());
        assert forall|k: int| 0 <= k < first_ws(s) implies !is_ws(#[trigger] s[k]) by {
            if k > 0 {
                assert(s[k] == s.drop_first()[k - 1]);
            }
        }
    }
}

/// `lead_ws` is determined by the whitespace pattern of `s`.
pub proof fn lemma_lead_ws_char(s: Seq<char>, n: nat)
    requires
        n <= s.len(),
        forall|k: int| 0 <= k < n ==> is_ws(#[trigger] s[k]),
        n < s.len() ==> !is_ws(s[n as int]),
    ensures
        lead_ws(s) == n,
    decreases s.len(),
{
    if n > 0 {
        assert(is_ws(s[0]));
        let t = s.drop_first();
        assert forall|k: int| 0 <= k < n - 1 implies is_ws(#[trigger] t[k]) by {
            assert(t[k] == s[k + 1]);
        }
        if n - 1 < t.len() {
            assert(t[n - 1] == s[n as int]);
        }
        lemma_lead_ws_char(t, (n - 1) as nat);
    }
}

pub proof fn lemma_trail_ws_char(s: Seq<char>, n: nat)
    requires
        n <= s.len(),
        forall|k: int| s.len() - n <= k < s.len() ==> is_ws(#[trigger] s[k]),
        n < s.len() ==> !is_ws(s[s.len() - n - 1]),
    ensures
        trail_ws(s) == n,
    decreases s.len(),
{
    if n > 0 {
        assert(is_ws(s[s.len() - 1]));
        let t = s.drop_last();
        assert forall|k: int| t.len() - (n - 1) <= k < t.len() implies is_ws(#[trigger] t[k]) by {
            assert(t[k] == s[k]);
        }
        if n - 1 < t.len() {
            assert(t[t.len() - (n - 1) - 1] == s[s.len() - n - 1]);
        }
        lemma_trail_ws_char(t, (n - 1) as nat);
    }
}

pub proof fn lemma_first_ws_char(s: Seq<char>, n: nat)
    requires
        n <= s.len(),
        forall|k: int| 0 <= k < n ==> !is_ws(#[trigger] s[k]),
        n < s.len() ==> is_ws(s[n as int]),
    ensures
        first_ws(s) == n,
    decreases s.len(),
{
    if n > 0 {
        assert(!is_ws(s[0]));
        let t = s.drop_first();
        assert forall|k: int| 0 <= k < n - 1 implies !is_ws(#[trigger] t[k]) by {
            assert(t[k] == s[k + 1]);
        }
        if n - 1 < t.len() {
            assert(t[n - 1] == s[n as int]);
        }
        lemma_first_ws_char(t, (n - 1) as nat);
    }
}

/// A sequence without whitespace at either end is its own trim.
pub proof fn lemma_trim_noop(s: Seq<char>)
    requires
        s.len() > 0 ==> !is_ws(s[0]) && !is_ws(s.last()),
    ensures
        trim(s) == s,
        trim_start(s) == s,
{
    lemma_lead_ws_char(s, 0);
    assert(trim_start(s) =~= s);
    lemma_trail_ws_char(s, 0);
    assert(trim_end(s) =~= s);
}

/// Leading whitespace stripped once is stripped for good.
pub proof fn lemma_trim_start_idem(s: Seq<char>)
    ensures
        trim_start(trim_start(s)) == trim_start(s),
{
    lemma_lead_ws(s);
    let u = trim_start(s);
    if u.len() > 0 {
        assert(u[0] == s[lead_ws(s) as int]);
    }
    lemma_lead_ws_char(u, 0);
    assert(u.subrange(0, u.len() as int) =~= u);
}

/// The words of `s` are those of `s` without its leading whitespace.
pub proof fn lemma_tokens_trim(s: Seq<char>)
    ensures
        tokens(trim_start(s)) == tokens(s),
{
    lemma_trim_start_idem(s);
}

/// A word followed by nothing or by whitespace is the first word.
pub proof fn lemma_tokens_cons(w: Seq<char>, rest: Seq<char>)
    requires
        is_word(w),
        rest.len() == 0 || is_ws(rest[0]),
    ensures
        tokens(w + rest) == seq![w] + tokens(rest),
{
    let s = w + rest;
    assert(s[0] == w[0]);
    lemma_lead_ws_char(s, 0);
    assert(trim_start(s) =~= s);
    assert forall|k: int| 0 <= k < w.len() implies !is_ws(#[trigger] s[k]) by {
        assert(s[k] == w[k]);
    }
    if w.len() < s.len() {
        assert(s[w.len() as int] == rest[0]);
    }
    lemma_first_ws_char(s, w.len());
    assert(s.subrange(0, w.len() as int) =~= w);
    assert(s.subrange(w.len() as int, s.len() as int) =~= rest);
}

/// Words joined by single spaces split back into the same words.
pub proof fn lemma_tokens_space(w: Seq<char>, rest: Seq<char>)
    requires
        is_word(w),
        rest.len() == 0 || !is_ws(rest[0]),
    ensures
        tokens(w + " "@ + rest) == seq![w] + tokens(rest),
{
    reveal_strlit(" ");
    let sp = seq![' '];
    assert(w + " "@ + rest =~= w + (sp + rest));
    assert(is_ws(' '));
    lemma_tokens_cons(w, sp + rest);
    lemma_trim_start_prefix(sp, rest);
    lemma_tokens_trim(sp + rest);
}

/// A word alone is its only word.
pub proof fn lemma_tokens_word(w: Seq<char>)
    requires
        is_word(w),
    ensures
        tokens(w) == seq![w],
{
    lemma_tokens_cons(w, Seq::<char>::empty());
    assert(w + Seq::<char>::empty() =~= w);
    assert(tokens(Seq::<char>::empty()) =~= Seq::<Seq<char>>::empty());
    assert(seq![w] + Seq::<Seq<char>>::empty() =~= seq![w]);
}

/// A non-empty run of non-whitespace characters.
pub open spec fn is_word(w: Seq<char>) -> bool {
    w.len() > 0 && forall|k: int| 0 <= k < w.len() ==> !is_ws(#[trigger] w[k])
}

/// No whitespace at either end.
pub open spec fn is_trimmed(p: Seq<char>) -> bool {
    p.len() > 0 ==> !is_ws(p[0]) && !is_ws(p.last())
}

/// Whitespace in front of a sequence that does not start with whitespace is
/// exactly what `trim_start` removes.
pub proof fn lemma_trim_start_prefix(p: Seq<char>, x: Seq<char>)
    requires
        forall|k: int| 0 <= k < p.len() ==> is_ws(#[trigger] p[k]),
        x.len() == 0 || !is_ws(x[0]),
    ensures
        trim_start(p + x) == x,
{
    let s = p + x;
    assert forall|k: int| 0 <= k < p.len() implies is_ws(#[trigger] s[k]) by {
        assert(s[k] == p[k]);
    }
    if p.len() < s.len() {
        assert(s[p.len() as int] == x[0]);
    }
    lemma_lead_ws_char(s, p.len());
    assert(s.subrange(p.len() as int, s.len() as int) =~= x);
}

/// Trailing whitespace after a sequence that does not end in whitespace is
/// exactly what `trim_end` removes.
pub proof fn lemma_trim_end_suffix(x: Seq<char>, q: Seq<char>)
    requires
        forall|k: int| 0 <= k < q.len() ==> is_ws(#[trigger] q[k]),
        x.len() == 0 || !is_ws(x.last()),
    ensures
        trim_end(x + q) == x,
{
    let s = x + q;
    assert forall|k: int| s.len() - q.len() <= k < s.len() implies is_ws(#[trigger] s[k]) by {
        assert(s[k] == q[k - x.len()]);
    }
    if q.len() < s.len() {
        assert(s[s.len() - q.len() - 1] == x.last());
    }
    lemma_trail_ws_char(s, q.len());
    assert(s.subrange(0, x.len() as int) =~= x);
}

/// A word followed by nothing or by whitespace splits off as the first word.
pub proof fn lemma_split_first_word(w: Seq<char>, rest: Seq<char>)
    requires
        is_word(w),
        rest.len() == 0 || is_ws(rest[0]),
    ensures
        split_first(w + rest) == (w, trim_start(rest)),
{
    let s = w + rest;
    assert(s[0] == w[0]);
    lemma_lead_ws_char(s, 0);
    assert(trim_start(s) =~= s);
    assert forall|k: int| 0 <= k < w.len() implies !is_ws(#[trigger] s[k]) by {
        assert(s[k] == w[k]);
    }
    if w.len() < s.len() {
        assert(s[w.len() as int] == rest[0]);
    }
    lemma_first_ws_char(s, w.len());
    assert(s.subrange(0, w.len() as int) =~= w);
    assert(s.subrange(w.len() as int, s.len() as int) =~= rest);
}

// ---------------------------------------------------------------------------
// Executable scanning over index ranges of a character vector
// ---------------------------------------------------------------------------

/// First index in `lo..hi` that is not whitespace (or `hi`).
pub fn skip_ws(v: &Vec<char>, lo: usize, hi: usize) -> (r: usize)
    requires
        lo <= hi <= v.len(),
    ensures
        r == lo + lead_ws(v@.subrange(lo as int, hi as int)),
        lo <= r <= hi,
{
    let mut i = lo;
    while i < hi && is_whitespace(v[i])
        invariant
            lo <= i <= hi <= v.len(),
            forall|k: int| lo <= k < i ==> is_ws(#[trigger] v@[k]),
        decreases hi - i,
    {
        i += 1;
    }
    proof {
        let s = v@.subrange(lo as int, hi as int);
        assert forall|k: int| 0 <= k < i - lo implies is_ws(#[trigger] s[k]) by {
            assert(s[k] == v@[lo + k]);
        }
        if i < hi {
            assert(s[i - lo] == v@[i as int]);
        }
        lemma_lead_ws_char(s, (i - lo) as nat);
    }
    i
}

/// First index in `lo..hi` that is whitespace (or `hi`).
pub fn find_ws(v: &Vec<char>, lo: usize, hi: usize) -> (r: usize)
    requires
        lo <= hi <= v.len(),
    ensures
        r == lo + first_ws(v@.subrange(lo as int, hi as int)),
        lo <= r <= hi,
{
    let mut i = lo;
    while i < hi && !is_whitespace(v[i])
        invariant
            lo <= i <= hi <= v.len(),
            forall|k: int| lo <= k < i ==> !is_ws(#[trigger] v@[k]),
        decreases hi - i,
    {
        i += 1;
    }
    proof {
        let s = v@.subrange(lo as int, hi as int);
        assert forall|k: int| 0 <= k < i - lo implies !is_ws(#[trigger] s[k]) by {
            assert(s[k] == v@[lo + k]);
        }
        if i < hi {
            assert(s[i - lo] == v@[i as int]);
        }
        lemma_first_ws_char(s, (i - lo) as nat);
    }
    i
}

/// Last index + 1 in `lo..hi` that is not whitespace (or `lo`).
pub fn skip_ws_back(v: &Vec<char>, lo: usize, hi: usize) -> (r: usize)
    requires
        lo <= hi <= v.len(),
    ensures
        r == hi - trail_ws(v@.subrange(lo as int, hi as int)),
        lo <= r <= hi,
{
    let mut j = hi;
    while j > lo && is_whitespace(v[j - 1])
        invariant
            lo <= j <= hi <= v.len(),
            forall|k: int| j <= k < hi ==> is_ws(#[trigger] v@[k]),
        decreases j - lo,
    {
        j -= 1;
    }
    proof {
        let s = v@.subrange(lo as int, hi as int);
        let n = (hi - j) as nat;
        assert forall|k: int| s.len() - n <= k < s.len() implies is_ws(#[trigger] s[k]) by {
            assert(s[k] == v@[lo + k]);
        }
        if n < s.len() {
            assert(s[s.len() - n - 1] == v@[j - 1]);
        }
        lemma_trail_ws_char(s, n);
    }
    j
}

/// The range of `trim(v[lo..hi])`.
pub fn trim_range(v: &Vec<char>, lo: usize, hi: usize) -> (r: (usize, usize))
    requires
        lo <= hi <= v.len(),
    ensures
        lo <= r.0 <= r.1 <= hi,
        v@.subrange(r.0 as int, r.1 as int) == trim(v@.subrange(lo as int, hi as int)),
{
    let a = skip_ws(v, lo, hi);
    let b = skip_ws_back(v, a, hi);
    proof {
        let s = v@.subrange(lo as int, hi as int);
        assert(trim_start(s) =~= v@.subrange(a as int, hi as int));
        assert(trim_end(v@.subrange(a as int, hi as int)) =~= v@.subrange(a as int, b as int));
    }
    (a, b)
}

/// The ranges of `split_first(v[lo..hi])`: the first word and the rest.
pub fn split_first_range(v: &Vec<char>, lo: usize, hi: usize) -> (r: (usize, usize, usize))
    requires
        lo <= hi <= v.len(),
    ensures
        lo <= r.0 <= r.1 <= r.2 <= hi,
        v@.subrange(r.0 as int, r.1 as int) == split_first(v@.subrange(lo as int, hi as int)).0,
        v@.subrange(r.2 as int, hi as int) == split_first(v@.subrange(lo as int, hi as int)).1,
{
    let a = skip_ws(v, lo, hi);
    let b = find_ws(v, a, hi);
    let c = skip_ws(v, b, hi);
    proof {
        let s = v@.subrange(lo as int, hi as int);
        let t = trim_start(s);
        assert(t =~= v@.subrange(a as int, hi as int));
        assert(t.subrange(0, (b - a) as int) =~= v@.subrange(a as int, b as int));
        assert(t.subrange((b - a) as int, t.len() as int) =~= v@.subrange(b as int, hi as int));
        assert(trim_start(v@.subrange(b as int, hi as int)) =~= v@.subrange(c as int, hi as int));
    }
    (a, b, c)
}

/// `tokens` of a range, unfolded once.
proof fn lemma_tokens_unfold(s: Seq<char>)
    ensures
        trim_start(s).len() == 0 ==> tokens(s) == Seq::<Seq<char>>::empty(),
        trim_start(s).len() > 0 ==> tokens(s) == seq![split_first(s).0] + tokens(
            trim_start(s).subrange(first_ws(trim_start(s)) as int, trim_start(s).len() as int),
        ),
{
}

/// The whitespace-separated words of `v[lo..hi]`, as character vectors.
pub fn split_tokens(v: &Vec<char>, lo: usize, hi: usize) -> (r: Vec<Vec<char>>)
    requires
        lo <= hi <= v.len(),
    ensures
        r@.len() == tokens(v@.subrange(lo as int, hi as int)).len(),
        forall|k: int|
            0 <= k < r@.len() ==> (#[trigger] r@[k])@ == tokens(
                v@.subrange(lo as int, hi as int),
            )[k],
{
    let mut out: Vec<Vec<char>> = Vec::new();
    let mut i = lo;
    let ghost whole = tokens(v@.subrange(lo as int, hi as int));
    while i < hi
        invariant
            lo <= i <= hi <= v.len(),
            whole == tokens(v@.subrange(lo as int, hi as int)),
            out@.len() + tokens(v@.subrange(i as int, hi as int)).len() == whole.len(),
            forall|k: int| 0 <= k < out@.len() ==> (#[trigger] out@[k])@ == whole[k],
            forall|k: int|
                0 <= k < tokens(v@.subrange(i as int, hi as int)).len() ==> whole[out@.len() + k]
                    == tokens(v@.subrange(i as int, hi as int))[k],
        decreases hi - i,
    {
        let ghost s = v@.subrange(i as int, hi as int);
        let a = skip_ws(v, i, hi);
        proof {
            assert(trim_start(s) =~= v@.subrange(a as int, hi as int));
        }
        if a == hi {
            proof {
                assert(tokens(v@.subrange(hi as int, hi as int)) =~= Seq::<Seq<char>>::empty());
                lemma_tokens_unfold(s);
            }
            i = hi;
        } else {
            let b = find_ws(v, a, hi);
            let mut w: Vec<char> = Vec::new();
            let mut k = a;
            while k < b
                invariant
                    a <= k <= b <= hi <= v.len(),
                    w@ == v@.subrange(a as int, k as int),
                decreases b - k,
            {
                w.push(v[k]);
                proof {
                    assert(w@ =~= v@.subrange(a as int, k + 1));
                }
                k += 1;
            }
            proof {
                let t = trim_start(s);
                lemma_first_ws(t);
                lemma_lead_ws(s);
                assert(t.subrange(0, (b - a) as int) =~= w@);
                assert(t.subrange((b - a) as int, t.len() as int) =~= v@.subrange(
                    b as int,
                    hi as int,
                ));
                lemma_tokens_unfold(s);
                let rest = tokens(v@.subrange(b as int, hi as int));
                assert(tokens(s) == seq![w@] + rest);
                assert(tokens(s)[0] == w@);
                assert forall|j: int| 0 <= j < rest.len() implies whole[out@.len() + 1 + j]
                    == rest[j] by {
                    assert(tokens(s)[j + 1] == rest[j]);
                }
            }
            out.push(w);
            i = b;
        }
    }
    proof {
        assert(tokens(v@.subrange(hi as int, hi as int)) =~= Seq::<Seq<char>>::empty()) by {
            lemma_lead_ws(v@.subrange(hi as int, hi as int));
        }
    }
    out
}

// ---------------------------------------------------------------------------
// Decimal numbers
// ---------------------------------------------------------------------------

pub open spec fn all_digits(s: Seq<char>) -> bool {
    forall|k: int| 0 <= k < s.len() ==> is_digit(#[trigger] s[k])
}

/// The value of a run of decimal digits.
pub open spec fn digits_value(s: Seq<char>) -> nat
    decreases s.len(),
{
    if s.len() == 0 {
        0
    } else {
        digits_value(s.drop_last()) * 10 + digit_val(s.last())
    }
}

/// The digits after an optional leading `+`.
pub open spec fn unsigned_body(s: Seq<char>) -> Seq<char> {
    if s.len() > 0 && s[0] == '+' {
        s.drop_first()
    } else {
        s
    }
}

/// What `str::parse` gives for an unsigned integer type whose largest value
/// is `max`: an optional `+` followed by at least one ASCII digit, in range.
pub open spec fn parse_unsigned(s: Seq<char>, max: nat) -> Option<nat> {
    let d = unsigned_body(s);
    if d.len() > 0 && all_digits(d) && digits_value(d) <= max {
        Some(digits_value(d))
    } else {
        None
    }
}

/// What `str::parse` gives for a signed integer type with range `min..=max`:
/// an optional sign followed by at least one ASCII digit, in range.
pub open spec fn parse_signed(s: Seq<char>, min: int, max: int) -> Option<int> {
    if s.len() > 0 && s[0] == '-' {
        let d = s.drop_first();
        if d.len() > 0 && all_digits(d) && -(digits_value(d) as int) >= min {
            Some(-(digits_value(d) as int))
        } else {
            None
        }
    } else {
        match parse_unsigned(s, max as nat) {
            Some(n) => if max >= 0 { Some(n as int) } else { None },
            None => None,
        }
    }
}

/// Decimal rendering of a natural number, without leading zeros.
pub open spec fn dec(n: nat) -> Seq<char>
    decreases n,
{
    if n < 10 {
        seq![digit_char(n)]
    } else {
        dec(n / 10).push(digit_char(n % 10))
    }
}

/// Decimal rendering of an integer, with a leading `-` when negative.
pub open spec fn int_dec(i: int) -> Seq<char> {
    if i < 0 {
        seq!['-'] + dec((-i) as nat)
    } else {
        dec(i as nat)
    }
}

pub proof fn lemma_digits_value_monotone(s: Seq<char>, i: int)
    requires
        0 <= i <= s.len(),
    ensures
        digits_value(s.subrange(0, i)) <= digits_value(s),
    decreases s.len() - i,
{
    if i < s.len() {
        lemma_digits_value_monotone(s, i + 1);
        assert(s.subrange(0, i + 1).drop_last() =~= s.subrange(0, i));
    } else {
        assert(s.subrange(0, i) =~= s);
    }
}

pub proof fn lemma_digit_char(d: nat)
    requires
        d < 10,
    ensures
        is_digit(digit_char(d)),
        digit_val(digit_char(d)) == d,
        !is_ws(digit_char(d)),
        digit_char(d) != '+' && digit_char(d) != '-',
{
    assert(digit_char(d) as u32 == d + 48);
}

pub proof fn lemma_dec_facts(n: nat)
    ensures
        dec(n).len() > 0,
        all_digits(dec(n)),
        digits_value(dec(n)) == n,
        forall|k: int| 0 <= k < dec(n).len() ==> !is_ws(#[trigger] dec(n)[k]),
        dec(n)[0] != '+' && dec(n)[0] != '-',
        dec(n).len() <= 20 || n >= 10,
    decreases n,
{
    lemma_digit_char((n % 10) as nat);
    if n < 10 {
        assert(dec(n).drop_last() =~= Seq::<char>::empty());
        assert(dec(n).last() == digit_char(n));
        assert(digits_value(dec(n)) == digits_value(dec(n).drop_last()) * 10 + digit_val(
            dec(n).last(),
        ));
        assert(digits_value(Seq::<char>::empty()) == 0);
    }
    if n >= 10 {
        assert((n / 10) * 10 + n % 10 == n);
        lemma_dec_facts(n / 10);
        assert(dec(n).drop_last() =~= dec(n / 10));
        assert(dec(n).last() == digit_char((n % 10) as nat));
        assert(digits_value(dec(n)) == digits_value(dec(n / 10)) * 10 + digit_val(
            digit_char((n % 10) as nat),
        ));
        let d = dec(n);
        assert forall|k: int| 0 <= k < d.len() implies is_digit(#[trigger] d[k]) by {
            if k < d.len() - 1 {
                assert(d[k] == dec(n / 10)[k]);
            }
        }
        assert(d[0] == dec(n / 10)[0]);
    }
}

pub proof fn lemma_parse_dec(n: nat, max: nat)
    requires
        n <= max,
    ensures
        parse_unsigned(dec(n), max) == Some(n),
{
    lemma_dec_facts(n);
}

/// An integer written in decimal (as `push_int` writes it) reads back as
/// itself (as `parse_signed_range` reads it), within any range holding it
/// and zero.
pub proof fn law_int_round_trip(i: int, min: int, max: int)
    requires
        min <= i <= max,
        min <= 0 <= max,
    ensures
        parse_signed(int_dec(i), min, max) == Some(i),
{
    if i < 0 {
        let n = (-i) as nat;
        lemma_dec_facts(n);
        assert((seq!['-'] + dec(n)).drop_first() =~= dec(n));
    } else {
        lemma_dec_facts(i as nat);
    }
}

/// Parses an unsigned decimal in `v[lo..hi]` whose value may not exceed `max`.
pub fn parse_unsigned_range(v: &Vec<char>, lo: usize, hi: usize, max: u64) -> (r: Option<u64>)
    requires
        lo <= hi <= v.len(),
    ensures
        match parse_unsigned(v@.subrange(lo as int, hi as int), max as nat) {
            Some(n) => r == Some(n as u64),
            None => r is None,
        },
{
    let ghost s = v@.subrange(lo as int, hi as int);
    let start = if lo < hi && v[lo] == '+' {
        lo + 1
    } else {
        lo
    };
    let ghost d = v@.subrange(start as int, hi as int);
    proof {
        assert(unsigned_body(s) =~= d);
    }
    if start == hi {
        return None;
    }
    let mut val: u64 = 0;
    let mut i = start;
    while i < hi
        invariant
            start <= i <= hi <= v.len(),
            d == v@.subrange(start as int, hi as int),
            unsigned_body(v@.subrange(lo as int, hi as int)) == d,
            forall|k: int| start <= k < i ==> is_digit(#[trigger] v@[k]),
            val as nat == digits_value(v@.subrange(start as int, i as int)),
            val <= max,
        decreases hi - i,
    {
        let c = v[i];
        let u = c as u32;
        proof {
            assert(d.subrange(0, i - start) =~= v@.subrange(start as int, i as int));
            assert(d.subrange(0, i + 1 - start) =~= v@.subrange(start as int, i + 1));
            assert(v@.subrange(start as int, i + 1).drop_last() =~= v@.subrange(
                start as int,
                i as int,
            ));
        }
        if u < 48 || u > 57 {
            proof {
                assert(d[i - start] == c);
                assert(!is_digit(d[i - start]));
            }
            return None;
        }
        let dv = (u - 48) as u64;
        if dv > max || val > (max - dv) / 10 {
            proof {
                assert(val * 10 + dv > max) by (nonlinear_arith)
                    requires
                        dv > max || val > (max - dv) / 10,
                ;
                assert(digits_value(d.subrange(0, i + 1 - start)) == val * 10 + dv);
                lemma_digits_value_monotone(d, i + 1 - start);
            }
            return None;
        }
        proof {
            assert(val * 10 + dv <= max) by (nonlinear_arith)
                requires
                    val <= (max - dv) / 10,
                    dv <= max,
            ;
        }
        val = val * 10 + dv;
        i += 1;
    }
    proof {
        assert(d =~= v@.subrange(start as int, hi as int));
        assert(all_digits(d));
    }
    Some(val)
}

/// Parses a signed decimal in `v[lo..hi]` within `min..=max`.
pub fn parse_signed_range(v: &Vec<char>, lo: usize, hi: usize, min: i64, max: i64) -> (r: Option<
    i64,
>)
    requires
        lo <= hi <= v.len(),
        min <= 0 <= max,
    ensures
        match parse_signed(v@.subrange(lo as int, hi as int), min as int, max as int) {
            Some(n) => r == Some(n as i64),
            None => r is None,
        },
{
    let ghost s = v@.subrange(lo as int, hi as int);
    if lo < hi && v[lo] == '-' {
        // magnitude bound: -min, which may be 2^63
        let mag_max: u64 = if min == i64::MIN {
            0x8000_0000_0000_0000u64
        } else {
            (-min) as u64
        };
        let m = parse_unsigned_range(v, lo + 1, hi, mag_max);
        proof {
            assert(s.drop_first() =~= v@.subrange(lo + 1, hi as int));
            let d = s.drop_first();
            if d.len() > 0 && d[0] == '+' {
                // a "-+" prefix is not a number
                assert(!is_digit(d[0]));
            }
            if d.len() > 0 && all_digits(d) {
                assert(unsigned_body(d) == d) by {
                    assert(is_digit(d[0]));
                }
            }
        }
        match m {
            Some(x) => {
                proof {
                    let d = s.drop_first();
                    assert(d.len() > 0 && d[0] == '+' ==> !is_digit(d[0]));
                }
                let d0 = v[lo + 1];
                if d0 == '+' {
                    return None;
                }
                proof {
                    let d = s.drop_first();
                    assert(unsigned_body(d) =~= d);
                }
                if x == 0x8000_0000_0000_0000u64 {
                    Some(i64::MIN)
                } else {
                    Some(-(x as i64))
                }
            },
            None => {
                proof {
                    let d = s.drop_first();
                    if d.len() > 0 && all_digits(d) {
                        assert(unsigned_body(d) =~= d);
                    }
                }
                None
            },
        }
    } else {
        let m = parse_unsigned_range(v, lo, hi, max as u64);
        match m {
            Some(x) => Some(x as i64),
            None => None,
        }
    }
}

/// The ASCII digit for `d`.
pub fn digit_to_char(d: u64) -> (c: char)
    requires
        d < 10,
    ensures
        c == digit_char(d as nat),
{
    match d {
        0 => '0',
        1 => '1',
        2 => '2',
        3 => '3',
        4 => '4',
        5 => '5',
        6 => '6',
        7 => '7',
        8 => '8',
        _ => '9',
    }
}

/// Appends the decimal rendering of `n`.
pub fn push_dec(out: &mut Vec<char>, n: u64)
    ensures
        final(out)@ == old(out)@ + dec(n as nat),
    decreases n,
{
    if n >= 10 {
        push_dec(out, n / 10);
        let c = digit_to_char(n % 10);
        out.push(c);
        proof {
            assert(c == digit_char((n % 10) as nat));
        }
    } else {
        let c = digit_to_char(n);
        out.push(c);
        proof {
            assert(c == digit_char(n as nat));
        }
    }
    proof {
        assert(out@ =~= old(out)@ + dec(n as nat));
    }
}

/// Appends the decimal rendering of `i`, with `-` when negative.
pub fn push_int(out: &mut Vec<char>, i: i64)
    ensures
        final(out)@ == old(out)@ + int_dec(i as int),
{
    if i < 0 {
        out.push('-');
        let mag: u64 = if i == i64::MIN {
            0x8000_0000_0000_0000u64
        } else {
            (-i) as u64
        };
        push_dec(out, mag);
        proof {
            assert(out@ =~= old(out)@ + int_dec(i as int));
        }
    } else {
        push_dec(out, i as u64);
    }
}

// ---------------------------------------------------------------------------
// Building strings
// ---------------------------------------------------------------------------

/// `String::push`: appends one character.
#[verifier::external_body]
fn string_push(s: &mut String, c: char)
    ensures
        final(s)@ == old(s)@.push(c),
{
    s.push(c)
}

/// A `String` holding exactly the characters of `v`.
pub fn string_of(v: &Vec<char>) -> (s: String)
    ensures
        s@ == v@,
{
    let mut s = String::new();
    let mut i: usize = 0;
    while i < v.len()
        invariant
            i <= v.len(),
            s@ == v@.subrange(0, i as int),
        decreases v.len() - i,
    {
        string_push(&mut s, v[i]);
        proof {
            assert(s@ =~= v@.subrange(0, i + 1));
        }
        i += 1;
    }
    proof {
        assert(v@.subrange(0, v.len() as int) =~= v@);
    }
    s
}

/// The characters of `v[lo..hi]` as a `String`.
pub fn string_of_range(v: &Vec<char>, lo: usize, hi: usize) -> (s: String)
    requires
        lo <= hi <= v.len(),
    ensures
        s@ == v@.subrange(lo as int, hi as int),
{
    let mut s = String::new();
    let mut i: usize = lo;
    while i < hi
        invariant
            lo <= i <= hi <= v.len(),
            s@ == v@.subrange(lo as int, i as int),
        decreases hi - i,
    {
        string_push(&mut s, v[i]);
        proof {
            assert(s@ =~= v@.subrange(lo as int, i + 1));
        }
        i += 1;
    }
    s
}

/// Appends the characters of `s`.
pub fn push_str(out: &mut Vec<char>, s: &str)
    ensures
        final(out)@ == old(out)@ + s@,
{
    let cs = chars_of(s);
    let mut i: usize = 0;
    while i < cs.len()
        invariant
            i <= cs.len(),
            cs@ == s@,
            out@ == old(out)@ + cs@.subrange(0, i as int),
        decreases cs.len() - i,
    {
        out.push(cs[i]);
        proof {
            assert(out@ =~= old(out)@ + cs@.subrange(0, i + 1));
        }
        i += 1;
    }
    proof {
        assert(cs@.subrange(0, cs.len() as int) =~= cs@);
    }
}

/// Appends the characters of `w`.
pub fn push_all(out: &mut Vec<char>, w: &Vec<char>)
    ensures
        final(out)@ == old(out)@ + w@,
{
    let mut i: usize = 0;
    while i < w.len()
        invariant
            i <= w.len(),
            out@ == old(out)@ + w@.subrange(0, i as int),
        decreases w.len() - i,
    {
        out.push(w[i]);
        proof {
            assert(out@ =~= old(out)@ + w@.subrange(0, i + 1));
        }
        i += 1;
    }
    proof {
        assert(w@.subrange(0, w.len() as int) =~= w@);
    }
}

/// The characters of `s`, in order.
pub fn chars_of(s: &str) -> (v: Vec<char>)
    ensures
        v@ == s@,
{
    let mut v: Vec<char> = Vec::new();
    for c in it: s.chars()
        invariant
            v@ == it.seq().take(it.index() as int),
            it.seq() == s@,
    {
        v.push(c);
    }
    v
}

/// Whether `v[lo..hi]` spells `lit`.
pub fn range_is(v: &Vec<char>, lo: usize, hi: usize, lit: &str) -> (b: bool)
    requires
        lo <= hi <= v.len(),
    ensures
        b == (v@.subrange(lo as int, hi as int) == lit@),
{
    let w = chars_of(lit);
    if hi - lo != w.len() {
        return false;
    }
    let mut i: usize = 0;
    while i < w.len()
        invariant
            i <= w.len() == hi - lo,
            lo <= hi <= v.len(),
            w@ == lit@,
            forall|k: int| 0 <= k < i ==> v@[lo + k] == w@[k],
        decreases w.len() - i,
    {
        if v[lo + i] != w[i] {
            proof {
                assert(v@.subrange(lo as int, hi as int)[i as int] == v@[lo + i]);
                assert(lit@[i as int] == w@[i as int]);
            }
            return false;
        }
        i += 1;
    }
    proof {
        assert(v@.subrange(lo as int, hi as int) =~= w@);
    }
    true
}

pub open spec fn is_lower(c: char) -> bool {
    97 <= (c as u32) <= 122
}

/// The code point of `char::to_ascii_uppercase(c)`.
pub open spec fn up_code(c: char) -> u32 {
    if is_lower(c) {
        ((c as u32) - 32) as u32
    } else {
        c as u32
    }
}

/// `s.to_ascii_uppercase() == lit`.
pub open spec fn upper_is(s: Seq<char>, lit: Seq<char>) -> bool {
    s.len() == lit.len() && forall|k: int| 0 <= k < s.len() ==> up_code(#[trigger] s[k]) == lit[k] as u32
}

/// Whether the ASCII upper-casing of `v[lo..hi]` spells `lit`.
pub fn range_is_upper(v: &Vec<char>, lo: usize, hi: usize, lit: &str) -> (b: bool)
    requires
        lo <= hi <= v.len(),
    ensures
        b == upper_is(v@.subrange(lo as int, hi as int), lit@),
{
    let w = chars_of(lit);
    let ghost u = v@.subrange(lo as int, hi as int);
    if hi - lo != w.len() {
        return false;
    }
    let mut i: usize = 0;
    while i < w.len()
        invariant
            i <= w.len() == hi - lo,
            lo <= hi <= v.len(),
            w@ == lit@,
            u == v@.subrange(lo as int, hi as int),
            forall|k: int| 0 <= k < i ==> up_code(#[trigger] u[k]) == w@[k] as u32,
        decreases w.len() - i,
    {
        let c = v[lo + i];
        let cu = c as u32;
        let up: u32 = if 97 <= cu && cu <= 122 {
            cu - 32
        } else {
            cu
        };
        proof {
            assert(u[i as int] == c);
        }
        if up != w[i] as u32 {
            return false;
        }
        i += 1;
    }
    true
}

/// Index of the first `' '`.
pub open spec fn space_index(s: Seq<char>) -> Option<nat>
    decreases s.len(),
{
    if s.len() == 0 {
        None
    } else if s[0] == ' ' {
        Some(0)
    } else {
        match space_index(s.drop_first()) {
            Some(i) => Some(i + 1),
            None => None,
        }
    }
}

/// `str::splitn(2, ' ')`: the part before the first space and, when there is
/// a space, the part after it.
pub open spec fn split_at_space(s: Seq<char>) -> (Seq<char>, Option<Seq<char>>) {
    match space_index(s) {
        Some(i) => (s.subrange(0, i as int), Some(s.subrange((i + 1) as int, s.len() as int))),
        None => (s, None),
    }
}

pub proof fn lemma_space_index_char(s: Seq<char>, i: int)
    requires
        0 <= i <= s.len(),
        forall|k: int| 0 <= k < i ==> s[k] != ' ',
        i < s.len() ==> s[i] == ' ',
    ensures
        space_index(s) == (if i < s.len() {
            Some(i as nat)
        } else {
            None::<nat>
        }),
    decreases s.len(),
{
    if s.len() > 0 && i > 0 {
        let t = s.drop_first();
        assert forall|k: int| 0 <= k < i - 1 implies t[k] != ' ' by {
            assert(t[k] == s[k + 1]);
        }
        if i - 1 < t.len() {
            assert(t[i - 1] == s[i]);
        }
        lemma_space_index_char(t, i - 1);
    }
}

/// Where `split_at_space(v)` cuts: the end of the first part and, when there
/// is a space, the start of the second.
pub fn split_space_range(v: &Vec<char>) -> (r: (usize, Option<usize>))
    ensures
        r.0 <= v.len(),
        v@.subrange(0, r.0 as int) == split_at_space(v@).0,
        match r.1 {
            Some(k) => k == r.0 + 1 && k <= v.len() && split_at_space(v@).1 == Some(
                v@.subrange(k as int, v.len() as int),
            ),
            None => split_at_space(v@).1 is None,
        },
{
    let mut i: usize = 0;
    while i < v.len()
        invariant
            i <= v.len(),
            forall|k: int| 0 <= k < i ==> v@[k] != ' ',
        decreases v.len() - i,
    {
        if v[i] == ' ' {
            proof {
                lemma_space_index_char(v@, i as int);
            }
            return (i, Some(i + 1));
        }
        i += 1;
    }
    proof {
        lemma_space_index_char(v@, i as int);
        assert(v@.subrange(0, i as int) =~= v@);
    }
    (i, None)
}

/// Whether `s` spells `lit`.
pub fn str_is(s: &str, lit: &str) -> (b: bool)
    ensures
        b == (s@ == lit@),
{
    let v = chars_of(s);
    proof {
        assert(v@.subrange(0, v@.len() as int) =~= v@);
    }
    range_is(&v, 0, v.len(), lit)
}

/// `trim(s)` as a `String`.
pub fn trimmed_string(s: &str) -> (r: String)
    ensures
        r@ == trim(s@),
{
    let v = chars_of(s);
    proof {
        assert(v@.subrange(0, v@.len() as int) =~= v@);
    }
    let (a, b) = trim_range(&v, 0, v.len());
    string_of_range(&v, a, b)
}

/// Whether two character vectors are equal.
pub fn vec_eq(a: &Vec<char>, b: &Vec<char>) -> (r: bool)
    ensures
        r == (a@ == b@),
{
    if a.len() != b.len() {
        return false;
    }
    let mut i: usize = 0;
    while i < a.len()
        invariant
            i <= a.len() == b.len(),
            forall|k: int| 0 <= k < i ==> a@[k] == b@[k],
        decreases a.len() - i,
    {
        if a[i] != b[i] {
            return false;
        }
        i += 1;
    }
    proof {
        assert(a@ =~= b@);
    }
    true
}

// ---------------------------------------------------------------------------
// Chat sanitising
// ---------------------------------------------------------------------------

/// Characters kept by chat sanitising: everything but control characters,
/// except newline and tab.
pub open spec fn keep_char(c: char) -> bool {
    !is_ctrl(c) || c == '\n' || c == '\t'
}

/// `s` without the characters that sanitising drops.
pub open spec fn clean(s: Seq<char>) -> Seq<char>
    decreases s.len(),
{
    if s.len() == 0 {
        seq![]
    } else if keep_char(s.last()) {
        clean(s.drop_last()).push(s.last())
    } else {
        clean(s.drop_last())
    }
}

pub open spec fn take_at_most(s: Seq<char>, n: nat) -> Seq<char> {
    if s.len() <= n {
        s
    } else {
        s.take(n as int)
    }
}

/// Chat sanitising: drop control characters (but keep newline and tab), keep
/// at most `max_len` of what remains, then trim.
pub open spec fn sanitized(s: Seq<char>, max_len: nat) -> Seq<char> {
    trim(take_at_most(clean(s), max_len))
}

pub fn sanitize(s: &Vec<char>, max_len: usize) -> (r: Vec<char>)
    ensures
        r@ == sanitized(s@, max_len as nat),
{
    let mut out: Vec<char> = Vec::new();
    let mut i: usize = 0;
    while i < s.len()
        invariant
            i <= s.len(),
            out@ == take_at_most(clean(s@.take(i as int)), max_len as nat),
        decreases s.len() - i,
    {
        let c = s[i];
        proof {
            assert(s@.take(i + 1).drop_last() =~= s@.take(i as int));
            assert(s@.take(i + 1).last() == c);
        }
        if (!is_control(c) || c == '\n' || c == '\t') && out.len() < max_len {
            out.push(c);
            proof {
                assert(out@ =~= take_at_most(clean(s@.take(i + 1)), max_len as nat));
            }
        } else {
            proof {
                let x = clean(s@.take(i as int));
                if keep_char(c) {
                    assert(x.push(c).take(max_len as int) =~= x.take(max_len as int));
                }
            }
        }
        i += 1;
    }
    proof {
        assert(s@.take(s.len() as int) =~= s@);
    }
    let (a, b) = trim_range(&out, 0, out.len());
    proof {
        assert(out@.subrange(0, out@.len() as int) =~= out@);
    }
    let mut r: Vec<char> = Vec::new();
    let mut k = a;
    while k < b
        invariant
            a <= k <= b <= out.len(),
            r@ == out@.subrange(a as int, k as int),
        decreases b - k,
    {
        r.push(out[k]);
        proof {
            assert(r@ =~= out@.subrange(a as int, k + 1));
        }
        k += 1;
    }
    r
}

/// Copies `v[lo..hi]` into a fresh vector.
pub fn sub_vec(v: &Vec<char>, lo: usize, hi: usize) -> (r: Vec<char>)
    requires
        lo <= hi <= v.len(),
    ensures
        r@ == v@.subrange(lo as int, hi as int),
{
    let mut r: Vec<char> = Vec::new();
    let mut k = lo;
    while k < hi
        invariant
            lo <= k <= hi <= v.len(),
            r@ == v@.subrange(lo as int, k as int),
        decreases hi - k,
    {
        r.push(v[k]);
        proof {
            assert(r@ =~= v@.subrange(lo as int, k + 1));
        }
        k += 1;
    }
    r
}

// ---------------------------------------------------------------------------
// Words of a payload
// ---------------------------------------------------------------------------

/// The words of a split line as character sequences.
pub open spec fn words_view(parts: Vec<Vec<char>>) -> Seq<Seq<char>> {
    Seq::new(parts@.len(), |k: int| parts@[k]@)
}

/// The words of `payload` and their character sequences.
pub fn words_of(payload: &str) -> (r: Vec<Vec<char>>)
    ensures
        words_view(r) == tokens(payload@),
{
    let v = chars_of(payload);
    proof {
        assert(v@.subrange(0, v@.len() as int) =~= v@);
    }
    let parts = split_tokens(&v, 0, v.len());
    proof {
        assert(words_view(parts) =~= tokens(payload@));
    }
    parts
}

pub fn word_usize(parts: &Vec<Vec<char>>, i: usize) -> (r: Option<usize>)
    requires
        i < parts.len(),
    ensures
        match parse_unsigned(words_view(*parts)[i as int], usize::MAX as nat) {
            Some(n) => r == Some(n as usize),
            None => r is None,
        },
{
    let w = &parts[i];
    proof {
        assert(w@.subrange(0, w@.len() as int) =~= w@);
    }
    match parse_unsigned_range(w, 0, w.len(), usize::MAX as u64) {
        Some(n) => Some(n as usize),
        None => None,
    }
}

/// The string of `w` as a `String`.
pub fn word_string(parts: &Vec<Vec<char>>, i: usize) -> (r: String)
    requires
        i < parts.len(),
    ensures
        r@ == words_view(*parts)[i as int],
{
    let w = &parts[i];
    proof {
        assert(w@.subrange(0, w@.len() as int) =~= w@);
    }
    string_of_range(w, 0, w.len())
}


/// Whether word `i` spells `lit`.
pub fn word_is(parts: &Vec<Vec<char>>, i: usize, lit: &str) -> (b: bool)
    requires
        i < parts.len(),
    ensures
        b == (words_view(*parts)[i as int] == lit@),
{
    let w = &parts[i];
    proof {
        assert(w@.subrange(0, w@.len() as int) =~= w@);
    }
    range_is(w, 0, w.len(), lit)
}

/// Word `i` read as an unsigned number no larger than `max`.
pub fn word_unsigned(parts: &Vec<Vec<char>>, i: usize, max: u64) -> (r: Option<u64>)
    requires
        i < parts.len(),
    ensures
        match parse_unsigned(words_view(*parts)[i as int], max as nat) {
            Some(n) => r == Some(n as u64),
            None => r is None,
        },
{
    let w = &parts[i];
    proof {
        assert(w@.subrange(0, w@.len() as int) =~= w@);
    }
    parse_unsigned_range(w, 0, w.len(), max)
}

/// Word `i` read as an `i64`.
pub fn word_i64(parts: &Vec<Vec<char>>, i: usize) -> (r: Option<i64>)
    requires
        i < parts.len(),
    ensures
        match parse_signed(words_view(*parts)[i as int], i64::MIN as int, i64::MAX as int) {
            Some(n) => r == Some(n as i64),
            None => r is None,
        },
{
    let w = &parts[i];
    proof {
        assert(w@.subrange(0, w@.len() as int) =~= w@);
    }
    parse_signed_range(w, 0, w.len(), i64::MIN, i64::MAX)
}

} // verus!
