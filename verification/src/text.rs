//! Character-level text helpers: ASCII case folding, Unicode white space,
//! and splitting.
use vstd::prelude::*;

verus! {

/// The characters of `s`.
pub fn chars_of(s: &str) -> (v: Vec<char>)
    ensures
        v@ == s@,
{
    let mut v: Vec<char> = Vec::new();
    for c in it: s.chars()
        invariant
            v@ == it.seq().take(it.index() as int),
    {
        v.push(c);
    }
    v
}

pub open spec fn is_ascii_upper(c: char) -> bool {
    'A' <= c <= 'Z'
}

pub open spec fn is_ascii_alpha(c: char) -> bool {
    ('A' <= c <= 'Z') || ('a' <= c <= 'z')
}

/// ASCII lower-casing: `A`-`Z` become `a`-`z`, every other character stays.
pub open spec fn ascii_lower(c: char) -> char {
    if is_ascii_upper(c) {
        ((c as u32) + 32) as char
    } else {
        c
    }
}

/// Equality of character sequences up to ASCII case.
pub open spec fn eq_ignore_ascii_case(a: Seq<char>, b: Seq<char>) -> bool {
    &&& a.len() == b.len()
    &&& forall|i: int| 0 <= i < a.len() ==> ascii_lower(#[trigger] a[i]) == ascii_lower(b[i])
}

fn char_code(c: char) -> (r: u32)
    ensures
        r == c as u32,
{
    c as u32
}

/// Whether two characters agree up to ASCII case.
pub fn char_eq_ignore_ascii_case(a: char, b: char) -> (r: bool)
    ensures
        r == (ascii_lower(a) == ascii_lower(b)),
{
    let la = if 'A' <= a && a <= 'Z' { char_code(a) + 32 } else { char_code(a) };
    let lb = if 'A' <= b && b <= 'Z' { char_code(b) + 32 } else { char_code(b) };
    proof {
        assert(la == ascii_lower(a) as u32);
        assert(lb == ascii_lower(b) as u32);
    }
    la == lb
}

/// Whether `a` and `b` agree up to ASCII case.
pub fn seq_eq_ignore_ascii_case(a: &Vec<char>, b: &[char]) -> (r: bool)
    ensures
        r == eq_ignore_ascii_case(a@, b@),
{
    if a.len() != b.len() {
        return false;
    }
    let mut i: usize = 0;
    while i < a.len()
        invariant
            a@.len() == b@.len(),
            i <= a@.len(),
            forall|j: int| 0 <= j < i ==> ascii_lower(#[trigger] a@[j]) == ascii_lower(b@[j]),
        decreases a@.len() - i,
    {
        if !char_eq_ignore_ascii_case(a[i], b[i]) {
            return false;
        }
        i += 1;
    }
    true
}

/// Whether `a` and `b` are the same characters.
pub fn seq_eq(a: &Vec<char>, b: &[char]) -> (r: bool)
    ensures
        r == (a@ == b@),
{
    if a.len() != b.len() {
        return false;
    }
    let mut i: usize = 0;
    while i < a.len()
        invariant
            a@.len() == b@.len(),
            i <= a@.len(),
            forall|j: int| 0 <= j < i ==> a@[j] == b@[j],
        decreases a@.len() - i,
    {
        if a[i] != b[i] {
            return false;
        }
        i += 1;
    }
    assert(a@ =~= b@);
    true
}

/// Unicode `White_Space`, as `char::is_whitespace` decides it.
pub open spec fn is_white(c: char) -> bool {
    let u = c as u32;
    ||| 0x09 <= u <= 0x0d
    ||| u == 0x20
    ||| u == 0x85
    ||| u == 0xa0
    ||| u == 0x1680
    ||| 0x2000 <= u <= 0x200a
    ||| u == 0x2028
    ||| u == 0x2029
    ||| u == 0x202f
    ||| u == 0x205f
    ||| u == 0x3000
}

pub fn is_white_exec(c: char) -> (r: bool)
    ensures
        r == is_white(c),
{
    let u = char_code(c);
    (0x09 <= u && u <= 0x0d) || u == 0x20 || u == 0x85 || u == 0xa0 || u == 0x1680 || (0x2000 <= u
        && u <= 0x200a) || u == 0x2028 || u == 0x2029 || u == 0x202f || u == 0x205f || u == 0x3000
}

/// Number of white-space characters at the start of `s`.
pub open spec fn leading_white(s: Seq<char>) -> nat
    decreases s.len(),
{
    if s.len() > 0 && is_white(s[0]) {
        1 + leading_white(s.drop_first())
    } else {
        0
    }
}

/// Number of white-space characters at the end of `s`.
pub open spec fn trailing_white(s: Seq<char>) -> nat
    decreases s.len(),
{
    if s.len() > 0 && is_white(s.last()) {
        1 + trailing_white(s.drop_last())
    } else {
        0
    }
}

/// `s` without white space at either end (as `str::trim` gives it).
pub open spec fn trim(s: Seq<char>) -> Seq<char> {
    let t = s.skip(leading_white(s) as int);
    t.take(t.len() - trailing_white(t))
}

proof fn lemma_leading_white(s: Seq<char>, k: int)
    requires
        0 <= k <= s.len(),
        forall|j: int| 0 <= j < k ==> is_white(#[trigger] s[j]),
        k == s.len() || !is_white(s[k]),
    ensures
        leading_white(s) == k,
    decreases k,
{
    if k > 0 {
        lemma_leading_white(s.drop_first(), k - 1);
        assert(forall|j: int| 0 <= j < k - 1 ==> #[trigger] s.drop_first()[j] == s[j + 1]);
    } else if s.len() > 0 {
        assert(!is_white(s[0]));
    }
}

proof fn lemma_trailing_white(s: Seq<char>, k: int)
    requires
        0 <= k <= s.len(),
        forall|j: int| s.len() - k <= j < s.len() ==> is_white(#[trigger] s[j]),
        k == s.len() || !is_white(s[s.len() - k - 1]),
    ensures
        trailing_white(s) == k,
    decreases k,
{
    if k > 0 {
        let t = s.drop_last();
        assert(forall|j: int| 0 <= j < t.len() ==> #[trigger] t[j] == s[j]);
        lemma_trailing_white(t, k - 1);
    } else if s.len() > 0 {
        assert(!is_white(s.last()));
    }
}

/// `s[lo..hi]` with white space removed from both ends.
pub fn trim_range(s: &Vec<char>, lo: usize, hi: usize) -> (r: Vec<char>)
    requires
        lo <= hi <= s@.len(),
    ensures
        r@ == trim(s@.subrange(lo as int, hi as int)),
{
    let ghost sub = s@.subrange(lo as int, hi as int);
    let mut a = lo;
    while a < hi && is_white_exec(s[a])
        invariant
            lo <= a <= hi,
            hi <= s@.len(),
            sub == s@.subrange(lo as int, hi as int),
            forall|j: int| 0 <= j < a - lo ==> is_white(#[trigger] sub[j]),
        decreases hi - a,
    {
        a += 1;
    }
    proof {
        lemma_leading_white(sub, (a - lo) as int);
    }
    let ghost t = sub.skip((a - lo) as int);
    assert(t =~= s@.subrange(a as int, hi as int));
    let mut b = hi;
    while b > a && is_white_exec(s[b - 1])
        invariant
            a <= b <= hi,
            hi <= s@.len(),
            t == s@.subrange(a as int, hi as int),
            forall|j: int| t.len() - (hi - b) <= j < t.len() ==> is_white(#[trigger] t[j]),
        decreases b - a,
    {
        b -= 1;
    }
    proof {
        lemma_trailing_white(t, (hi - b) as int);
    }
    let mut r: Vec<char> = Vec::new();
    let mut i = a;
    while i < b
        invariant
            a <= i <= b,
            b <= s@.len(),
            r@ == s@.subrange(a as int, i as int),
        decreases b - i,
    {
        r.push(s[i]);
        i += 1;
        assert(r@ =~= s@.subrange(a as int, i as int));
    }
    assert(r@ =~= t.take(t.len() - trailing_white(t)));
    r
}

/// What separates the pieces of a text.
#[derive(Clone, Copy, Debug, PartialEq, Eq, Structural)]
pub enum Separator {
    /// Unicode white space.
    White,
    /// One given character.
    Char(char),
}

pub open spec fn is_sep(sep: Separator, c: char) -> bool {
    match sep {
        Separator::White => is_white(c),
        Separator::Char(d) => c == d,
    }
}

fn is_sep_exec(sep: Separator, c: char) -> (r: bool)
    ensures
        r == is_sep(sep, c),
{
    match sep {
        Separator::White => is_white_exec(c),
        Separator::Char(d) => c == d,
    }
}

/// `acc` followed by the pieces of `s`, where `cur` is a piece begun
/// before `s`.
pub open spec fn pieces_from(s: Seq<char>, sep: Separator, acc: Seq<Seq<char>>, cur: Seq<char>) -> Seq<
    Seq<char>,
>
    decreases s.len(),
{
    let done = if cur.len() > 0 {
        acc.push(cur)
    } else {
        acc
    };
    if s.len() == 0 {
        done
    } else if is_sep(sep, s[0]) {
        pieces_from(s.drop_first(), sep, done, Seq::empty())
    } else {
        pieces_from(s.drop_first(), sep, acc, cur.push(s[0]))
    }
}

/// The maximal non-empty runs of characters of `s` that are not separators,
/// in order (as `str::split_whitespace` gives them for white space, and as
/// splitting at a character and dropping empty pieces gives them).
pub open spec fn pieces(s: Seq<char>, sep: Separator) -> Seq<Seq<char>> {
    pieces_from(s, sep, Seq::empty(), Seq::empty())
}

pub open spec fn views_of(v: Seq<Vec<char>>) -> Seq<Seq<char>> {
    v.map_values(|w: Vec<char>| w@)
}

/// The pieces of `s[lo..hi]` (see [`pieces`]).
pub fn split_pieces(s: &Vec<char>, lo: usize, hi: usize, sep: Separator) -> (r: Vec<Vec<char>>)
    requires
        lo <= hi <= s@.len(),
    ensures
        views_of(r@) == pieces(s@.subrange(lo as int, hi as int), sep),
{
    let ghost sub = s@.subrange(lo as int, hi as int);
    let mut acc: Vec<Vec<char>> = Vec::new();
    let mut cur: Vec<char> = Vec::new();
    let mut i = lo;
    proof {
        assert(views_of(acc@) =~= Seq::<Seq<char>>::empty());
        assert(cur@ =~= Seq::<char>::empty());
    }
    while i < hi
        invariant
            lo <= i <= hi,
            hi <= s@.len(),
            sub == s@.subrange(lo as int, hi as int),
            pieces(sub, sep) == pieces_from(s@.subrange(i as int, hi as int), sep, views_of(acc@), cur@),
        decreases hi - i,
    {
        let ghost rest = s@.subrange(i as int, hi as int);
        proof {
            assert(rest.drop_first() =~= s@.subrange(i as int + 1, hi as int));
            assert(rest[0] == s@[i as int]);
        }
        let c = s[i];
        let ghost before = views_of(acc@);
        let ghost cv = cur@;
        if is_sep_exec(sep, c) {
            if cur.len() > 0 {
                acc.push(cur);
                proof {
                    assert(views_of(acc@) =~= before.push(cv));
                }
                cur = Vec::new();
                proof {
                    assert(cur@ =~= Seq::<char>::empty());
                }
            } else {
                proof {
                    assert(cur@ =~= Seq::<char>::empty());
                }
            }
        } else {
            cur.push(c);
        }
        proof {
            assert(pieces_from(rest, sep, before, cv) == pieces_from(
                s@.subrange(i as int + 1, hi as int),
                sep,
                views_of(acc@),
                cur@,
            ));
        }
        i += 1;
    }
    let ghost before = views_of(acc@);
    let ghost cv = cur@;
    proof {
        assert(s@.subrange(i as int, hi as int) =~= Seq::<char>::empty());
    }
    if cur.len() > 0 {
        acc.push(cur);
        proof {
            assert(views_of(acc@) =~= before.push(cv));
        }
    }
    acc
}

/// Whether each piece is non-empty and holds no separator.
pub open spec fn clean_pieces(p: Seq<Seq<char>>, sep: Separator) -> bool {
    forall|k: int| 0 <= k < p.len() ==> clean_piece(#[trigger] p[k], sep)
}

pub open spec fn clean_piece(w: Seq<char>, sep: Separator) -> bool {
    w.len() > 0 && forall|j: int| 0 <= j < w.len() ==> !is_sep(sep, #[trigger] w[j])
}

proof fn lemma_pieces_from_clean(s: Seq<char>, sep: Separator, acc: Seq<Seq<char>>, cur: Seq<char>)
    requires
        clean_pieces(acc, sep),
        forall|j: int| 0 <= j < cur.len() ==> !is_sep(sep, #[trigger] cur[j]),
    ensures
        clean_pieces(pieces_from(s, sep, acc, cur), sep),
    decreases s.len(),
{
    let done = if cur.len() > 0 {
        acc.push(cur)
    } else {
        acc
    };
    assert(clean_pieces(done, sep)) by {
        assert forall|k: int| 0 <= k < done.len() implies clean_piece(#[trigger] done[k], sep) by {
            if k < acc.len() {
                assert(done[k] == acc[k]);
            }
        }
    }
    if s.len() == 0 {
    } else if is_sep(sep, s[0]) {
        lemma_pieces_from_clean(s.drop_first(), sep, done, Seq::empty());
    } else {
        let c2 = cur.push(s[0]);
        assert forall|j: int| 0 <= j < c2.len() implies !is_sep(sep, #[trigger] c2[j]) by {
            if j < cur.len() {
                assert(c2[j] == cur[j]);
            }
        }
        lemma_pieces_from_clean(s.drop_first(), sep, acc, c2);
    }
}

/// Text that starts and ends with no white space is its own trimmed form.
pub proof fn lemma_trim_unchanged(s: Seq<char>)
    requires
        s.len() == 0 || (!is_white(s[0]) && !is_white(s.last())),
    ensures
        trim(s) == s,
{
    assert(leading_white(s) == 0);
    assert(s.skip(0) =~= s);
    assert(trailing_white(s) == 0);
    assert(s.take(s.len() as int) =~= s);
}

proof fn lemma_pieces_tail(x: Seq<char>, sep: Separator, acc: Seq<Seq<char>>, cur: Seq<char>)
    requires
        (cur + x).len() > 0,
        forall|j: int| 0 <= j < x.len() ==> !is_sep(sep, #[trigger] x[j]),
    ensures
        pieces_from(x, sep, acc, cur) == acc.push(cur + x),
    decreases x.len(),
{
    if x.len() == 0 {
        assert(cur + x =~= cur);
    } else {
        assert(!is_sep(sep, x[0]));
        let x1 = x.drop_first();
        assert forall|j: int| 0 <= j < x1.len() implies !is_sep(sep, #[trigger] x1[j]) by {
            assert(x1[j] == x[j + 1]);
        }
        assert(cur.push(x[0]) + x1 =~= cur + x);
        lemma_pieces_tail(x1, sep, acc, cur.push(x[0]));
    }
}

proof fn lemma_pieces_from_last(
    a: Seq<char>,
    d: char,
    x: Seq<char>,
    sep: Separator,
    acc: Seq<Seq<char>>,
    cur: Seq<char>,
)
    requires
        is_sep(sep, d),
        x.len() > 0,
        forall|j: int| 0 <= j < x.len() ==> !is_sep(sep, #[trigger] x[j]),
    ensures
        pieces_from(a + seq![d] + x, sep, acc, cur) == pieces_from(a, sep, acc, cur).push(x),
    decreases a.len(),
{
    let s = a + seq![d] + x;
    if a.len() == 0 {
        assert(s[0] == d);
        assert(s.drop_first() =~= x);
        let done = if cur.len() > 0 {
            acc.push(cur)
        } else {
            acc
        };
        assert(Seq::<char>::empty() + x =~= x);
        lemma_pieces_tail(x, sep, done, Seq::empty());
    } else {
        assert(s[0] == a[0]);
        assert(s.drop_first() =~= a.drop_first() + seq![d] + x);
        let done = if cur.len() > 0 {
            acc.push(cur)
        } else {
            acc
        };
        lemma_pieces_from_last(a.drop_first(), d, x, sep, done, Seq::empty());
        lemma_pieces_from_last(a.drop_first(), d, x, sep, acc, cur.push(a[0]));
    }
}

/// Text followed by a separator and a non-empty run without separators
/// splits into the pieces of the text and then that run.
pub proof fn lemma_pieces_last(a: Seq<char>, d: char, x: Seq<char>, sep: Separator)
    requires
        is_sep(sep, d),
        x.len() > 0,
        forall|j: int| 0 <= j < x.len() ==> !is_sep(sep, #[trigger] x[j]),
    ensures
        pieces(a + seq![d] + x, sep) == pieces(a, sep).push(x),
{
    lemma_pieces_from_last(a, d, x, sep, Seq::empty(), Seq::empty());
}

/// Every piece is non-empty and holds no separator.
pub proof fn lemma_pieces_clean(s: Seq<char>, sep: Separator)
    ensures
        clean_pieces(pieces(s, sep), sep),
{
    lemma_pieces_from_clean(s, sep, Seq::empty(), Seq::empty());
}

} // verus!
