//! Character-level text handling shared by the parsers and formatters.
//!
//! Text is handled as sequences of `char`: a `&str` is turned into a
//! `Vec<char>` once, the work is done on the characters, and the result is
//! turned back into a `String`. Each operation is specified by a spec
//! function over `Seq<char>` that says what the operation computes.
use vstd::prelude::*;

verus! {

// ---------------------------------------------------------------------------
// Conversions between strings and character vectors
// ---------------------------------------------------------------------------
/// The characters of `s`, in order.
pub fn chars_of(s: &str) -> (v: Vec<char>)
    ensures
        v@ == s@,
{
    let mut v: Vec<char> = Vec::new();
    let n = s.unicode_len();
    let mut i: usize = 0;
    while i < n
        invariant
            n == s@.len(),
            i <= n,
            v@ == s@.subrange(0, i as int),
        decreases n - i,
    {
        let c = s.get_char(i);
        v.push(c);
        i = i + 1;
        assert(v@ == s@.subrange(0, i as int));
    }
    v
}

/// Builds a `String` from characters (`Iterator::collect` into `String`):
/// the string holds exactly the given characters, in order.
#[verifier::external_body]
pub(crate) fn string_of(v: &[char]) -> (s: String)
    ensures
        s@ == v@,
{
    v.iter().collect()
}

/// A `String` holding the characters of `v`.
pub fn to_string(v: &Vec<char>) -> (s: String)
    ensures
        s@ == v@,
{
    string_of(v.as_slice())
}

/// A copy of `v[lo..hi]`.
pub fn slice_chars(v: &Vec<char>, lo: usize, hi: usize) -> (r: Vec<char>)
    requires
        lo <= hi <= v@.len(),
    ensures
        r@ == v@.subrange(lo as int, hi as int),
{
    let mut r: Vec<char> = Vec::new();
    let mut i = lo;
    while i < hi
        invariant
            lo <= i <= hi <= v@.len(),
            r@ == v@.subrange(lo as int, i as int),
        decreases hi - i,
    {
        r.push(v[i]);
        i = i + 1;
        assert(r@ == v@.subrange(lo as int, i as int));
    }
    r
}

/// Appends the characters of `s` to `buf`.
pub fn push_str(buf: &mut Vec<char>, s: &str)
    ensures
        final(buf)@ == old(buf)@ + s@,
{
    let v = chars_of(s);
    push_chars(buf, &v);
}

/// Appends the characters of `v` to `buf`.
pub fn push_chars(buf: &mut Vec<char>, v: &Vec<char>)
    ensures
        final(buf)@ == old(buf)@ + v@,
{
    let ghost start = buf@;
    let mut i: usize = 0;
    while i < v.len()
        invariant
            i <= v@.len(),
            buf@ == start + v@.subrange(0, i as int),
        decreases v@.len() - i,
    {
        buf.push(v[i]);
        i = i + 1;
        assert(buf@ == start + v@.subrange(0, i as int));
    }
    assert(v@.subrange(0, v@.len() as int) == v@);
}

// ---------------------------------------------------------------------------
// Whitespace and trimming
// ---------------------------------------------------------------------------
/// Unicode `White_Space` characters, the set `char::is_whitespace` tests.
pub open spec fn is_ws(c: char) -> bool {
    let u = c as u32;
    (0x09 <= u && u <= 0x0d) || u == 0x20 || u == 0x85 || u == 0xa0 || u == 0x1680 || (0x2000
        <= u && u <= 0x200a) || u == 0x2028 || u == 0x2029 || u == 0x202f || u == 0x205f || u
        == 0x3000
}

/// Whether `c` is whitespace (`char::is_whitespace`).
pub fn char_is_ws(c: char) -> (b: bool)
    ensures
        b == is_ws(c),
{
    let u = c as u32;
    (0x09 <= u && u <= 0x0d) || u == 0x20 || u == 0x85 || u == 0xa0 || u == 0x1680 || (0x2000
        <= u && u <= 0x200a) || u == 0x2028 || u == 0x2029 || u == 0x202f || u == 0x205f || u
        == 0x3000
}

/// Index of the first non-whitespace character at or after `i` (or the
/// length when there is none).
pub open spec fn first_non_ws_from(s: Seq<char>, i: int) -> int
    decreases s.len() - i,
{
    if i >= s.len() || i < 0 {
        s.len() as int
    } else if is_ws(s[i]) {
        first_non_ws_from(s, i + 1)
    } else {
        i
    }
}

/// One past the last non-whitespace character before `j` (or 0 when there
/// is none).
pub open spec fn end_non_ws_before(s: Seq<char>, j: int) -> int
    decreases j,
{
    if j <= 0 || j > s.len() {
        0
    } else if is_ws(s[j - 1]) {
        end_non_ws_before(s, j - 1)
    } else {
        j
    }
}

/// `s` without leading and trailing whitespace (`str::trim`).
pub open spec fn trim(s: Seq<char>) -> Seq<char> {
    let a = first_non_ws_from(s, 0);
    let b = end_non_ws_before(s, s.len() as int);
    if a < b {
        s.subrange(a, b)
    } else {
        Seq::empty()
    }
}

proof fn lemma_first_non_ws_bounds(s: Seq<char>, i: int)
    requires
        0 <= i <= s.len(),
    ensures
        i <= first_non_ws_from(s, i) <= s.len(),
        forall|k: int| i <= k < first_non_ws_from(s, i) ==> is_ws(#[trigger] s[k]),
        first_non_ws_from(s, i) < s.len() ==> !is_ws(s[first_non_ws_from(s, i)]),
    decreases s.len() - i,
{
    if i < s.len() && is_ws(s[i]) {
        lemma_first_non_ws_bounds(s, i + 1);
    }
}

proof fn lemma_end_non_ws_bounds(s: Seq<char>, j: int)
    requires
        0 <= j <= s.len(),
    ensures
        0 <= end_non_ws_before(s, j) <= j,
        forall|k: int| end_non_ws_before(s, j) <= k < j ==> is_ws(#[trigger] s[k]),
        end_non_ws_before(s, j) > 0 ==> !is_ws(s[end_non_ws_before(s, j) - 1]),
    decreases j,
{
    if j > 0 && is_ws(s[j - 1]) {
        lemma_end_non_ws_bounds(s, j - 1);
    }
}

/// Trimming twice trims no more than trimming once.
pub proof fn lemma_trim_idempotent(s: Seq<char>)
    ensures
        trim(trim(s)) == trim(s),
{
    lemma_first_non_ws_bounds(s, 0);
    lemma_end_non_ws_bounds(s, s.len() as int);
    let t = trim(s);
    if t.len() > 0 {
        let a = first_non_ws_from(s, 0);
        let b = end_non_ws_before(s, s.len() as int);
        assert(t[0] == s[a]);
        assert(t[t.len() - 1] == s[b - 1]);
        assert(first_non_ws_from(t, 0) == 0);
        assert(end_non_ws_before(t, t.len() as int) == t.len());
        assert(t.subrange(0, t.len() as int) =~= t);
    } else {
        assert(first_non_ws_from(t, 0) == 0);
        assert(trim(t) =~= t);
    }
}

/// `v` without leading and trailing whitespace.
pub fn trim_chars(v: &Vec<char>) -> (r: Vec<char>)
    ensures
        r@ == trim(v@),
{
    let n = v.len();
    let mut a: usize = 0;
    while a < n && char_is_ws(v[a])
        invariant
            a <= n == v@.len(),
            first_non_ws_from(v@, 0) == first_non_ws_from(v@, a as int),
        decreases n - a,
    {
        a = a + 1;
    }
    let mut b: usize = n;
    while b > 0 && char_is_ws(v[b - 1])
        invariant
            b <= n == v@.len(),
            end_non_ws_before(v@, n as int) == end_non_ws_before(v@, b as int),
        decreases b,
    {
        b = b - 1;
    }
    if a < b {
        slice_chars(v, a, b)
    } else {
        Vec::new()
    }
}

// ---------------------------------------------------------------------------
// Comparisons and searches
// ---------------------------------------------------------------------------
/// `p` is a prefix of `s`.
pub open spec fn starts_with(s: Seq<char>, p: Seq<char>) -> bool {
    p.len() <= s.len() && s.subrange(0, p.len() as int) == p
}

/// Whether `p` is a prefix of `v`.
pub fn has_prefix(v: &Vec<char>, p: &Vec<char>) -> (b: bool)
    ensures
        b == starts_with(v@, p@),
{
    if p.len() > v.len() {
        return false;
    }
    let mut i: usize = 0;
    while i < p.len()
        invariant
            p@.len() <= v@.len(),
            i <= p@.len(),
            forall|k: int| 0 <= k < i ==> v@[k] == p@[k],
        decreases p@.len() - i,
    {
        if v[i] != p[i] {
            assert(v@.subrange(0, p@.len() as int)[i as int] != p@[i as int]);
            return false;
        }
        i = i + 1;
    }
    assert(v@.subrange(0, p@.len() as int) =~= p@);
    true
}

/// Whether `v` and `w` hold the same characters.
pub fn same_chars(v: &Vec<char>, w: &Vec<char>) -> (b: bool)
    ensures
        b == (v@ == w@),
{
    if v.len() != w.len() {
        return false;
    }
    let r = has_prefix(v, w);
    proof {
        if r {
            assert(v@ =~= v@.subrange(0, w@.len() as int));
        } else {
            if v@ == w@ {
                assert(v@.subrange(0, w@.len() as int) =~= w@);
            }
        }
    }
    r
}

/// Whether the string `s` holds exactly the characters `v`.
pub fn is_text(v: &Vec<char>, s: &str) -> (b: bool)
    ensures
        b == (v@ == s@),
{
    let w = chars_of(s);
    same_chars(v, &w)
}

/// ASCII upper-case letters mapped to lower case; other characters kept.
pub open spec fn ascii_lower(c: char) -> char {
    if 'A' <= c && c <= 'Z' {
        ((c as u32) + 32) as char
    } else {
        c
    }
}

/// The two sequences are equal up to ASCII case (`eq_ignore_ascii_case`).
pub open spec fn eq_ignore_ascii_case(a: Seq<char>, b: Seq<char>) -> bool {
    a.len() == b.len() && forall|k: int| 0 <= k < a.len() ==> ascii_lower(#[trigger] a[k]) == ascii_lower(
        b[k],
    )
}

fn lower_ascii_char(c: char) -> (r: char)
    ensures
        r == ascii_lower(c),
{
    if 'A' <= c && c <= 'Z' {
        let u = (c as u32) + 32;
        ((u as u8) as char)
    } else {
        c
    }
}

/// Whether `v` equals `w` up to ASCII case.
pub fn same_ignoring_ascii_case(v: &Vec<char>, w: &Vec<char>) -> (b: bool)
    ensures
        b == eq_ignore_ascii_case(v@, w@),
{
    if v.len() != w.len() {
        return false;
    }
    let mut i: usize = 0;
    while i < v.len()
        invariant
            v@.len() == w@.len(),
            i <= v@.len(),
            forall|k: int| 0 <= k < i ==> ascii_lower(#[trigger] v@[k]) == ascii_lower(w@[k]),
        decreases v@.len() - i,
    {
        if lower_ascii_char(v[i]) != lower_ascii_char(w[i]) {
            return false;
        }
        i = i + 1;
    }
    true
}

/// `needle` occurs in `hay` starting at `i`.
pub open spec fn occurs_at(hay: Seq<char>, needle: Seq<char>, i: int) -> bool {
    0 <= i && i + needle.len() <= hay.len() && hay.subrange(i, i + needle.len()) == needle
}

/// `needle` occurs somewhere in `hay` (`str::contains`).
pub open spec fn contains_text(hay: Seq<char>, needle: Seq<char>) -> bool {
    exists|i: int| occurs_at(hay, needle, i)
}

fn occurs_at_exec(hay: &Vec<char>, needle: &Vec<char>, i: usize) -> (b: bool)
    requires
        i + needle@.len() <= hay@.len(),
    ensures
        b == occurs_at(hay@, needle@, i as int),
{
    let hl = hay.len();
    let mut k: usize = 0;
    while k < needle.len()
        invariant
            hl == hay@.len(),
            i + needle@.len() <= hay@.len(),
            k <= needle@.len(),
            forall|q: int| 0 <= q < k ==> hay@[i + q] == needle@[q],
        decreases needle@.len() - k,
    {
        if hay[i + k] != needle[k] {
            assert(hay@.subrange(i as int, i + needle@.len())[k as int] != needle@[k as int]);
            return false;
        }
        k = k + 1;
    }
    assert(hay@.subrange(i as int, i + needle@.len()) =~= needle@);
    true
}

/// Whether `needle` occurs in `hay`.
pub fn contains_chars(hay: &Vec<char>, needle: &Vec<char>) -> (b: bool)
    ensures
        b == contains_text(hay@, needle@),
{
    if needle.len() > hay.len() {
        return false;
    }
    if needle.len() == 0 {
        assert(hay@.subrange(0, 0) =~= needle@);
        assert(occurs_at(hay@, needle@, 0));
        return true;
    }
    let hl = hay.len();
    let last = hl - needle.len();
    let mut i: usize = 0;
    while i <= last
        invariant
            hl == hay@.len(),
            needle@.len() > 0,
            last + needle@.len() == hay@.len(),
            i <= last + 1,
            forall|q: int| 0 <= q < i ==> !occurs_at(hay@, needle@, q),
        decreases last + 1 - i,
    {
        if occurs_at_exec(hay, needle, i) {
            return true;
        }
        i = i + 1;
    }
    false
}

/// Index of the first occurrence of `c` in `s`, if any.
pub open spec fn find_char(s: Seq<char>, c: char) -> Option<int>
    decreases s.len(),
{
    if s.len() == 0 {
        None
    } else if s[0] == c {
        Some(0)
    } else {
        match find_char(s.drop_first(), c) {
            Some(i) => Some(i + 1),
            None => None,
        }
    }
}

/// What `find_char` finds: the first occurrence, or none at all.
pub proof fn lemma_find_char(s: Seq<char>, c: char)
    ensures
        match find_char(s, c) {
            Some(i) => 0 <= i < s.len() && s[i] == c && forall|k: int| 0 <= k < i ==> #[trigger] s[k]
                != c,
            None => forall|k: int| 0 <= k < s.len() ==> #[trigger] s[k] != c,
        },
    decreases s.len(),
{
    if s.len() > 0 && s[0] != c {
        lemma_find_char(s.drop_first(), c);
        assert forall|k: int| 1 <= k < s.len() implies s[k] == s.drop_first()[k - 1] by {}
    }
}

proof fn lemma_find_char_unique(s: Seq<char>, c: char, i: int)
    requires
        0 <= i < s.len(),
        s[i] == c,
        forall|k: int| 0 <= k < i ==> #[trigger] s[k] != c,
    ensures
        find_char(s, c) == Some(i),
    decreases s.len(),
{
    if i > 0 {
        assert forall|k: int| 0 <= k < i - 1 implies #[trigger] s.drop_first()[k] != c by {
            assert(s.drop_first()[k] == s[k + 1]);
        }
        lemma_find_char_unique(s.drop_first(), c, i - 1);
    }
}

proof fn lemma_find_char_none(s: Seq<char>, c: char)
    requires
        forall|k: int| 0 <= k < s.len() ==> #[trigger] s[k] != c,
    ensures
        find_char(s, c) is None,
    decreases s.len(),
{
    if s.len() > 0 {
        assert forall|k: int| 0 <= k < s.len() - 1 implies #[trigger] s.drop_first()[k] != c by {
            assert(s.drop_first()[k] == s[k + 1]);
        }
        lemma_find_char_none(s.drop_first(), c);
    }
}

/// Index of the first `c` in `v`.
pub fn find_char_exec(v: &Vec<char>, c: char) -> (r: Option<usize>)
    ensures
        match r {
            Some(i) => find_char(v@, c) == Some(i as int),
            None => find_char(v@, c) is None,
        },
{
    let mut i: usize = 0;
    while i < v.len()
        invariant
            i <= v@.len(),
            forall|k: int| 0 <= k < i ==> #[trigger] v@[k] != c,
        decreases v@.len() - i,
    {
        if v[i] == c {
            proof {
                lemma_find_char_unique(v@, c, i as int);
            }
            return Some(i);
        }
        i = i + 1;
    }
    proof {
        lemma_find_char_none(v@, c);
    }
    None
}

/// Pieces of `s` between occurrences of `sep` (`str::split` on a `char`).
pub open spec fn split_on(s: Seq<char>, sep: char) -> Seq<Seq<char>>
    decreases s.len(),
{
    match find_char(s, sep) {
        Some(i) => if 0 <= i < s.len() {
            seq![s.take(i)] + split_on(s.skip(i + 1), sep)
        } else {
            seq![s]
        },
        None => seq![s],
    }
}

/// The view of an optional string.
pub open spec fn opt_text(o: Option<String>) -> Option<Seq<char>> {
    match o {
        Some(s) => Some(s@),
        None => None,
    }
}

/// The views of a vector of character vectors.
pub open spec fn views(v: Seq<Vec<char>>) -> Seq<Seq<char>> {
    v.map_values(|x: Vec<char>| x@)
}

/// Splits `v` on every `sep`.
pub fn split_chars(v: &Vec<char>, sep: char) -> (r: Vec<Vec<char>>)
    ensures
        views(r@) == split_on(v@, sep),
{
    let mut out: Vec<Vec<char>> = Vec::new();
    let mut rest = slice_chars(v, 0, v.len());
    assert(rest@ =~= v@);
    assert(views(out@) =~= Seq::<Seq<char>>::empty());
    assert(views(out@) + split_on(rest@, sep) =~= split_on(v@, sep));
    loop
        invariant
            views(out@) + split_on(rest@, sep) == split_on(v@, sep),
        decreases rest@.len(),
    {
        proof {
            lemma_find_char(rest@, sep);
        }
        match find_char_exec(&rest, sep) {
            Some(i) => {
                let rl = rest.len();
                let piece = slice_chars(&rest, 0, i);
                let tail = slice_chars(&rest, i + 1, rl);
                proof {
                    assert(piece@ == rest@.take(i as int));
                    assert(tail@ == rest@.skip(i + 1));
                    assert(views(out@.push(piece)) == views(out@).push(piece@));
                    assert(split_on(rest@, sep) == seq![piece@] + split_on(tail@, sep));
                    assert(views(out@).push(piece@) + split_on(tail@, sep) == views(out@) + (seq![
                        piece@,
                    ] + split_on(tail@, sep)));
                }
                out.push(piece);
                rest = tail;
            },
            None => {
                proof {
                    assert(views(out@.push(rest)) == views(out@).push(rest@));
                    assert(split_on(rest@, sep) == seq![rest@]);
                    assert(views(out@) + seq![rest@] == views(out@).push(rest@));
                }
                out.push(rest);
                return out;
            },
        }
    }
}

// ---------------------------------------------------------------------------
// Decimal and hexadecimal text
// ---------------------------------------------------------------------------
/// The decimal digit character for `d < 10`.
pub open spec fn digit_char(d: nat) -> char {
    ((d as u32) + 48) as char
}

/// Decimal representation of `n`, without leading zeros (`0` is `"0"`).
pub open spec fn dec(n: nat) -> Seq<char>
    decreases n,
{
    if n < 10 {
        seq![digit_char(n)]
    } else {
        dec(n / 10).push(digit_char(n % 10))
    }
}

/// Decimal representation of a signed integer (`-` before negatives).
pub open spec fn dec_int(x: int) -> Seq<char> {
    if x < 0 {
        seq!['-'] + dec((-x) as nat)
    } else {
        dec(x as nat)
    }
}

/// `s` padded on the left with `'0'` to at least `width` characters.
pub open spec fn zero_pad(s: Seq<char>, width: nat) -> Seq<char> {
    if s.len() >= width {
        s
    } else {
        Seq::new((width - s.len()) as nat, |i: int| '0') + s
    }
}

/// Lower-case hexadecimal digit character for `d < 16`.
pub open spec fn hex_char(d: nat) -> char {
    if d < 10 {
        digit_char(d)
    } else {
        ((d as u32) + 87) as char
    }
}

/// Lower-case hexadecimal representation of `n`, without leading zeros.
pub open spec fn hex(n: nat) -> Seq<char>
    decreases n,
{
    if n < 16 {
        seq![hex_char(n)]
    } else {
        hex(n / 16).push(hex_char(n % 16))
    }
}

fn digit(d: u64) -> (c: char)
    requires
        d < 10,
    ensures
        c == digit_char(d as nat),
{
    let u = (d as u8) + 48;
    u as char
}

pub(crate) fn hex_digit(d: u64) -> (c: char)
    requires
        d < 16,
    ensures
        c == hex_char(d as nat),
{
    if d < 10 {
        digit(d)
    } else {
        let u = (d as u8) + 87;
        u as char
    }
}

/// Appends the decimal representation of `n`.
pub fn push_dec(buf: &mut Vec<char>, n: u64)
    ensures
        final(buf)@ == old(buf)@ + dec(n as nat),
    decreases n,
{
    if n >= 10 {
        push_dec(buf, n / 10);
    }
    buf.push(digit(n % 10));
    proof {
        if n >= 10 {
            assert(dec(n as nat) == dec((n / 10) as nat).push(digit_char((n % 10) as nat)));
        }
    }
}

/// Appends the decimal representation of a signed value.
pub fn push_dec_i64(buf: &mut Vec<char>, x: i64)
    ensures
        final(buf)@ == old(buf)@ + dec_int(x as int),
{
    if x < 0 {
        buf.push('-');
        let m: u64 = if x == i64::MIN {
            9223372036854775808u64
        } else {
            (-x) as u64
        };
        push_dec(buf, m);
        assert(old(buf)@.push('-') + dec(m as nat) == old(buf)@ + (seq!['-'] + dec(m as nat)));
    } else {
        push_dec(buf, x as u64);
    }
}

/// Appends the hexadecimal representation of `n`.
pub fn push_hex(buf: &mut Vec<char>, n: u64)
    ensures
        final(buf)@ == old(buf)@ + hex(n as nat),
    decreases n,
{
    if n >= 16 {
        push_hex(buf, n / 16);
    }
    buf.push(hex_digit(n % 16));
    proof {
        if n >= 16 {
            assert(hex(n as nat) == hex((n / 16) as nat).push(hex_char((n % 16) as nat)));
        }
    }
}

/// Appends `s` padded on the left with zeros to `width` characters.
pub fn push_zero_padded(buf: &mut Vec<char>, s: &Vec<char>, width: usize)
    ensures
        final(buf)@ == old(buf)@ + zero_pad(s@, width as nat),
{
    let ghost start = buf@;
    if s.len() < width {
        let fill = width - s.len();
        let mut i: usize = 0;
        while i < fill
            invariant
                i <= fill,
                buf@ == start + Seq::new(i as nat, |k: int| '0'),
            decreases fill - i,
        {
            buf.push('0');
            i = i + 1;
            assert(buf@ == start + Seq::new(i as nat, |k: int| '0'));
        }
        push_chars(buf, s);
        assert(start + Seq::new(fill as nat, |k: int| '0') + s@ == start + (Seq::new(
            fill as nat,
            |k: int| '0',
        ) + s@));
    } else {
        push_chars(buf, s);
    }
}

/// Decimal digits of `n`.
pub fn dec_chars(n: u64) -> (r: Vec<char>)
    ensures
        r@ == dec(n as nat),
{
    let mut r: Vec<char> = Vec::new();
    push_dec(&mut r, n);
    assert(Seq::<char>::empty() + dec(n as nat) == dec(n as nat));
    r
}

/// Hexadecimal digits of `n`.
pub fn hex_chars(n: u64) -> (r: Vec<char>)
    ensures
        r@ == hex(n as nat),
{
    let mut r: Vec<char> = Vec::new();
    push_hex(&mut r, n);
    assert(Seq::<char>::empty() + hex(n as nat) == hex(n as nat));
    r
}

// ---------------------------------------------------------------------------
// Lists
// ---------------------------------------------------------------------------
/// The items joined, with `sep` between each two.
pub open spec fn join(items: Seq<Seq<char>>, sep: Seq<char>) -> Seq<char>
    decreases items.len(),
{
    if items.len() == 0 {
        Seq::empty()
    } else if items.len() == 1 {
        items[0]
    } else {
        join(items.drop_last(), sep) + sep + items.last()
    }
}

/// A list of numbers as `Debug` prints it: `[1, 2, 3]`.
pub open spec fn num_list(ns: Seq<nat>) -> Seq<char> {
    "["@ + join(ns.map_values(|n: nat| dec(n)), ", "@) + "]"@
}

/// The numbers of a `usize` sequence.
pub open spec fn usize_nats(v: Seq<usize>) -> Seq<nat> {
    v.map_values(|x: usize| x as nat)
}

/// The numbers of a `u32` sequence.
pub open spec fn u32_nats(v: Seq<u32>) -> Seq<nat> {
    v.map_values(|x: u32| x as nat)
}

/// Appends `[a, b, ...]` for the numbers of `v`.
pub fn push_usize_list(buf: &mut Vec<char>, v: &[usize])
    ensures
        final(buf)@ == old(buf)@ + num_list(usize_nats(v@)),
{
    let ghost start = buf@;
    let ghost items = usize_nats(v@).map_values(|n: nat| dec(n));
    buf.push('[');
    let mut i: usize = 0;
    proof {
        reveal_strlit("[");
        assert(items.take(0) =~= Seq::<Seq<char>>::empty());
        assert(buf@ =~= start + "["@ + join(items.take(0), ", "@));
    }
    while i < v.len()
        invariant
            i <= v@.len(),
            items == usize_nats(v@).map_values(|n: nat| dec(n)),
            buf@ == start + "["@ + join(items.take(i as int), ", "@),
        decreases v@.len() - i,
    {
        proof {
            reveal_strlit("[");
            reveal_strlit(", ");
            assert(items.take(i + 1).drop_last() =~= items.take(i as int));
            assert(items[i as int] == dec(v@[i as int] as nat));
        }
        if i > 0 {
            buf.push(',');
            buf.push(' ');
        }
        push_dec(buf, v[i] as u64);
        i = i + 1;
    }
    buf.push(']');
    proof {
        reveal_strlit("]");
        assert(items.take(i as int) =~= items);
    }
}

/// Appends `[a, b, ...]` for the numbers of `v`.
pub fn push_u32_list(buf: &mut Vec<char>, v: &[u32])
    ensures
        final(buf)@ == old(buf)@ + num_list(u32_nats(v@)),
{
    let ghost start = buf@;
    let ghost items = u32_nats(v@).map_values(|n: nat| dec(n));
    buf.push('[');
    let mut i: usize = 0;
    proof {
        reveal_strlit("[");
        assert(items.take(0) =~= Seq::<Seq<char>>::empty());
        assert(buf@ =~= start + "["@ + join(items.take(0), ", "@));
    }
    while i < v.len()
        invariant
            i <= v@.len(),
            items == u32_nats(v@).map_values(|n: nat| dec(n)),
            buf@ == start + "["@ + join(items.take(i as int), ", "@),
        decreases v@.len() - i,
    {
        proof {
            reveal_strlit("[");
            reveal_strlit(", ");
            assert(items.take(i + 1).drop_last() =~= items.take(i as int));
            assert(items[i as int] == dec(v@[i as int] as nat));
        }
        if i > 0 {
            buf.push(',');
            buf.push(' ');
        }
        push_dec(buf, v[i] as u64);
        i = i + 1;
    }
    buf.push(']');
    proof {
        reveal_strlit("]");
        assert(items.take(i as int) =~= items);
    }
}

// ---------------------------------------------------------------------------
// Parsing unsigned decimals
// ---------------------------------------------------------------------------
/// `c` is an ASCII decimal digit.
pub open spec fn is_digit(c: char) -> bool {
    '0' <= c && c <= '9'
}

/// Value of an ASCII digit.
pub open spec fn digit_value(c: char) -> nat {
    ((c as u32) - 48) as nat
}

/// Value of a string of ASCII digits.
pub open spec fn digits_value(s: Seq<char>) -> nat
    decreases s.len(),
{
    if s.len() == 0 {
        0
    } else {
        digits_value(s.drop_last()) * 10 + digit_value(s.last())
    }
}

/// The digits of an unsigned decimal: `s` without one leading `+`.
pub open spec fn unsigned_digits(s: Seq<char>) -> Seq<char> {
    if s.len() > 0 && s[0] == '+' {
        s.drop_first()
    } else {
        s
    }
}

/// What `from_str` of an unsigned integer type with largest value `max`
/// accepts: an optional `+`, then at least one ASCII digit and nothing
/// else, with a value of at most `max`.
pub open spec fn parse_unsigned(s: Seq<char>, max: nat) -> Option<nat> {
    let d = unsigned_digits(s);
    if d.len() > 0 && (forall|k: int| 0 <= k < d.len() ==> is_digit(#[trigger] d[k]))
        && digits_value(d) <= max {
        Some(digits_value(d))
    } else {
        None
    }
}

/// What `usize::from_str` accepts.
pub open spec fn parse_usize(s: Seq<char>) -> Option<nat> {
    parse_unsigned(s, usize::MAX as nat)
}

/// What `u64::from_str` accepts.
pub open spec fn parse_u64(s: Seq<char>) -> Option<nat> {
    parse_unsigned(s, u64::MAX as nat)
}

proof fn lemma_digits_value_monotone(s: Seq<char>, i: int)
    requires
        0 <= i <= s.len(),
        forall|k: int| 0 <= k < s.len() ==> is_digit(#[trigger] s[k]),
    ensures
        digits_value(s.subrange(0, i)) <= digits_value(s),
    decreases s.len() - i,
{
    if i < s.len() {
        lemma_digits_value_monotone(s, i + 1);
        let t = s.subrange(0, i + 1);
        assert(t.drop_last() == s.subrange(0, i));
        assert(digits_value(t) == digits_value(s.subrange(0, i)) * 10 + digit_value(t.last()));
    } else {
        assert(s.subrange(0, i) == s);
    }
}

/// Parses an unsigned decimal the way `usize::from_str` does.
pub fn parse_usize_chars(s: &Vec<char>) -> (r: Option<usize>)
    ensures
        match r {
            Some(v) => parse_usize(s@) == Some(v as nat),
            None => parse_usize(s@) is None,
        },
{
    let start: usize = if s.len() > 0 && s[0] == '+' {
        1
    } else {
        0
    };
    let ghost d = unsigned_digits(s@);
    assert(d == s@.subrange(start as int, s@.len() as int));
    if start == s.len() {
        assert(d.len() == 0);
        return None;
    }
    let mut value: usize = 0;
    let mut i = start;
    while i < s.len()
        invariant
            start <= i <= s@.len(),
            d == s@.subrange(start as int, s@.len() as int),
            d == unsigned_digits(s@),
            d.len() > 0,
            forall|k: int| start <= k < i ==> is_digit(#[trigger] s@[k]),
            value as nat == digits_value(s@.subrange(start as int, i as int)),
            forall|k: int| start <= k < i ==> d[k - start] == s@[k],
        decreases s@.len() - i,
    {
        let c = s[i];
        if !('0' <= c && c <= '9') {
            proof {
                assert(d[i - start] == s@[i as int]);
                assert(!is_digit(d[i - start]));
                assert(0 <= i - start < d.len());
                assert(!(forall|k: int| 0 <= k < d.len() ==> is_digit(#[trigger] d[k])));
                assert(d == unsigned_digits(s@));
                assert(parse_usize(s@) is None);
            }
            return None;
        }
        let dv = (c as u32 - 48) as usize;
        let ghost prefix = s@.subrange(start as int, i + 1);
        proof {
            assert(prefix.drop_last() =~= s@.subrange(start as int, i as int));
            assert(prefix.last() == c);
            assert(digits_value(prefix) == value * 10 + dv);
            assert(d.subrange(0, i + 1 - start) =~= prefix);
        }
        match value.checked_mul(10) {
            Some(m) => match m.checked_add(dv) {
                Some(v2) => {
                    value = v2;
                },
                None => {
                    proof {
                        assert(digits_value(prefix) > usize::MAX);
                        if forall|k: int| 0 <= k < d.len() ==> is_digit(#[trigger] d[k]) {
                            lemma_digits_value_monotone(d, i + 1 - start);
                        }
                    }
                    return None;
                },
            },
            None => {
                proof {
                    assert(digits_value(prefix) > usize::MAX);
                    if forall|k: int| 0 <= k < d.len() ==> is_digit(#[trigger] d[k]) {
                        lemma_digits_value_monotone(d, i + 1 - start);
                    }
                }
                return None;
            },
        }
        i = i + 1;
    }
    assert(s@.subrange(start as int, s@.len() as int) == d);
    Some(value)
}

/// Parses an unsigned decimal the way `u64::from_str` does.
pub fn parse_u64_chars(s: &Vec<char>) -> (r: Option<u64>)
    ensures
        match r {
            Some(v) => parse_u64(s@) == Some(v as nat),
            None => parse_u64(s@) is None,
        },
{
    let start: usize = if s.len() > 0 && s[0] == '+' {
        1
    } else {
        0
    };
    let ghost d = unsigned_digits(s@);
    assert(d == s@.subrange(start as int, s@.len() as int));
    if start == s.len() {
        assert(d.len() == 0);
        return None;
    }
    let mut value: u64 = 0;
    let mut i = start;
    while i < s.len()
        invariant
            start <= i <= s@.len(),
            d == s@.subrange(start as int, s@.len() as int),
            d == unsigned_digits(s@),
            d.len() > 0,
            forall|k: int| start <= k < i ==> is_digit(#[trigger] s@[k]),
            value as nat == digits_value(s@.subrange(start as int, i as int)),
            forall|k: int| start <= k < i ==> d[k - start] == s@[k],
        decreases s@.len() - i,
    {
        let c = s[i];
        if !('0' <= c && c <= '9') {
            proof {
                assert(d[i - start] == s@[i as int]);
                assert(!is_digit(d[i - start]));
                assert(0 <= i - start < d.len());
                assert(!(forall|k: int| 0 <= k < d.len() ==> is_digit(#[trigger] d[k])));
                assert(d == unsigned_digits(s@));
                assert(parse_u64(s@) is None);
            }
            return None;
        }
        let dv = (c as u32 - 48) as u64;
        let ghost prefix = s@.subrange(start as int, i + 1);
        proof {
            assert(prefix.drop_last() =~= s@.subrange(start as int, i as int));
            assert(prefix.last() == c);
            assert(digits_value(prefix) == value * 10 + dv);
            assert(d.subrange(0, i + 1 - start) =~= prefix);
        }
        match value.checked_mul(10) {
            Some(m) => match m.checked_add(dv) {
                Some(v2) => {
                    value = v2;
                },
                None => {
                    proof {
                        assert(digits_value(prefix) > u64::MAX);
                        if forall|k: int| 0 <= k < d.len() ==> is_digit(#[trigger] d[k]) {
                            lemma_digits_value_monotone(d, i + 1 - start);
                        }
                    }
                    return None;
                },
            },
            None => {
                proof {
                    assert(digits_value(prefix) > u64::MAX);
                    if forall|k: int| 0 <= k < d.len() ==> is_digit(#[trigger] d[k]) {
                        lemma_digits_value_monotone(d, i + 1 - start);
                    }
                }
                return None;
            },
        }
        i = i + 1;
    }
    assert(s@.subrange(start as int, s@.len() as int) == d);
    Some(value)
}

// ---------------------------------------------------------------------------
// Lines and whitespace-separated tokens
// ---------------------------------------------------------------------------
/// `s` without one trailing carriage return.
pub open spec fn strip_cr(s: Seq<char>) -> Seq<char> {
    if s.len() > 0 && s.last() == '\r' {
        s.drop_last()
    } else {
        s
    }
}

/// The lines of `s` (`str::lines`): split at `\n`, a `\r` just before a
/// `\n` is dropped, and a final line ending does not start an empty line.
pub open spec fn lines(s: Seq<char>) -> Seq<Seq<char>>
    decreases s.len(),
{
    if s.len() == 0 {
        Seq::empty()
    } else {
        match find_char(s, '\n') {
            Some(i) => if 0 <= i < s.len() {
                seq![strip_cr(s.take(i))] + lines(s.skip(i + 1))
            } else {
                seq![s]
            },
            None => seq![s],
        }
    }
}

/// The lines of `v`.
pub fn lines_of(v: &Vec<char>) -> (r: Vec<Vec<char>>)
    ensures
        views(r@) == lines(v@),
{
    let mut out: Vec<Vec<char>> = Vec::new();
    let mut rest = slice_chars(v, 0, v.len());
    assert(rest@ =~= v@);
    assert(views(out@) + lines(rest@) =~= lines(v@));
    while rest.len() > 0
        invariant
            views(out@) + lines(rest@) == lines(v@),
        decreases rest@.len(),
    {
        proof {
            lemma_find_char(rest@, '\n');
        }
        let rl = rest.len();
        match find_char_exec(&rest, '\n') {
            Some(i) => {
                let mut piece = slice_chars(&rest, 0, i);
                if piece.len() > 0 && piece[piece.len() - 1] == '\r' {
                    piece.pop();
                }
                let tail = slice_chars(&rest, i + 1, rl);
                proof {
                    assert(piece@ == strip_cr(rest@.take(i as int)));
                    assert(tail@ == rest@.skip(i + 1));
                    assert(views(out@.push(piece)) == views(out@).push(piece@));
                    assert(lines(rest@) == seq![piece@] + lines(tail@));
                    assert(views(out@).push(piece@) + lines(tail@) == views(out@) + (seq![piece@]
                        + lines(tail@)));
                }
                out.push(piece);
                rest = tail;
            },
            None => {
                proof {
                    assert(views(out@.push(rest)) == views(out@).push(rest@));
                    assert(lines(rest@) == seq![rest@]);
                    assert(views(out@) + seq![rest@] == views(out@).push(rest@));
                }
                out.push(rest);
                return out;
            },
        }
    }
    assert(lines(rest@) =~= Seq::<Seq<char>>::empty());
    assert(views(out@) + lines(rest@) =~= views(out@));
    out
}

/// Index of the first whitespace character at or after `i` (or the length).
pub open spec fn first_ws_from(s: Seq<char>, i: int) -> int
    decreases s.len() - i,
{
    if i >= s.len() || i < 0 {
        s.len() as int
    } else if is_ws(s[i]) {
        i
    } else {
        first_ws_from(s, i + 1)
    }
}

proof fn lemma_first_ws_bounds(s: Seq<char>, i: int)
    requires
        0 <= i <= s.len(),
    ensures
        i <= first_ws_from(s, i) <= s.len(),
    decreases s.len() - i,
{
    if i < s.len() && !is_ws(s[i]) {
        lemma_first_ws_bounds(s, i + 1);
    }
}

/// The whitespace-separated tokens of `s` (`str::split_whitespace`).
pub open spec fn ws_tokens(s: Seq<char>) -> Seq<Seq<char>>
    decreases s.len(),
{
    let a = first_non_ws_from(s, 0);
    if a >= s.len() {
        Seq::empty()
    } else {
        let b = first_ws_from(s, a);
        if a < b <= s.len() {
            seq![s.subrange(a, b)] + ws_tokens(s.skip(b))
        } else {
            Seq::empty()
        }
    }
}

/// The whitespace-separated tokens of `v`.
pub fn ws_tokens_of(v: &Vec<char>) -> (r: Vec<Vec<char>>)
    ensures
        views(r@) == ws_tokens(v@),
{
    let mut out: Vec<Vec<char>> = Vec::new();
    let mut rest = slice_chars(v, 0, v.len());
    assert(rest@ =~= v@);
    assert(views(out@) + ws_tokens(rest@) =~= ws_tokens(v@));
    loop
        invariant
            views(out@) + ws_tokens(rest@) == ws_tokens(v@),
        decreases rest@.len(),
    {
        let n = rest.len();
        let mut a: usize = 0;
        while a < n && char_is_ws(rest[a])
            invariant
                a <= n == rest@.len(),
                first_non_ws_from(rest@, 0) == first_non_ws_from(rest@, a as int),
            decreases n - a,
        {
            a = a + 1;
        }
        proof {
            lemma_first_non_ws_bounds(rest@, a as int);
        }
        if a >= n {
            assert(ws_tokens(rest@) =~= Seq::<Seq<char>>::empty());
            assert(views(out@) + ws_tokens(rest@) =~= views(out@));
            return out;
        }
        let mut b: usize = a;
        while b < n && !char_is_ws(rest[b])
            invariant
                a <= b <= n == rest@.len(),
                first_ws_from(rest@, a as int) == first_ws_from(rest@, b as int),
            decreases n - b,
        {
            b = b + 1;
        }
        proof {
            lemma_first_ws_bounds(rest@, b as int);
            assert(!is_ws(rest@[a as int]));
        }
        let piece = slice_chars(&rest, a, b);
        let tail = slice_chars(&rest, b, n);
        proof {
            assert(tail@ == rest@.skip(b as int));
            assert(ws_tokens(rest@) == seq![piece@] + ws_tokens(tail@));
            assert(views(out@.push(piece)) == views(out@).push(piece@));
            assert(views(out@).push(piece@) + ws_tokens(tail@) == views(out@) + (seq![piece@]
                + ws_tokens(tail@)));
        }
        out.push(piece);
        rest = tail;
    }
}

// ---------------------------------------------------------------------------
// Unicode lower-casing
// ---------------------------------------------------------------------------
/// What `str::to_lowercase` makes of a string: each character replaced by
/// its Unicode lower-case mapping. The mapping depends on the string alone.
pub uninterp spec fn lowercase(s: Seq<char>) -> Seq<char>;

/// `str::to_lowercase`: the Unicode lower-case form of `s`, named by
/// `lowercase`; nothing more is claimed of it.
#[verifier::external_body]
pub(crate) fn to_lowercase(s: &str) -> (r: String)
    ensures
        r@ == lowercase(s@),
{
    s.to_lowercase()
}

} // verus!
