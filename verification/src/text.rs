//! Character-level text operations: Unicode white space, trimming, decimal
//! rendering of integers and UTF-8 decoding.

use vstd::prelude::*;
use vstd::utf8::*;

verus! {

/// The Unicode `White_Space` property, which `char::is_whitespace` and
/// `str::trim` are defined by.
pub open spec fn is_white_space(c: char) -> bool {
    let u = c as u32;
    ||| 0x09 <= u <= 0x0D
    ||| u == 0x20
    ||| u == 0x85
    ||| u == 0xA0
    ||| u == 0x1680
    ||| 0x2000 <= u <= 0x200A
    ||| u == 0x2028
    ||| u == 0x2029
    ||| u == 0x202F
    ||| u == 0x205F
    ||| u == 0x3000
}

/// Whether `c` is Unicode white space.
pub fn is_white_space_char(c: char) -> (r: bool)
    ensures
        r == is_white_space(c),
{
    let u = c as u32;
    (0x09 <= u && u <= 0x0D) || u == 0x20 || u == 0x85 || u == 0xA0 || u == 0x1680 || (0x2000
        <= u && u <= 0x200A) || u == 0x2028 || u == 0x2029 || u == 0x202F || u == 0x205F || u
        == 0x3000
}

/// `s` without its leading white space.
pub open spec fn trim_start(s: Seq<char>) -> Seq<char>
    decreases s.len(),
{
    if s.len() > 0 && is_white_space(s[0]) {
        trim_start(s.drop_first())
    } else {
        s
    }
}

/// `s` without its trailing white space.
pub open spec fn trim_end(s: Seq<char>) -> Seq<char>
    decreases s.len(),
{
    if s.len() > 0 && is_white_space(s.last()) {
        trim_end(s.drop_last())
    } else {
        s
    }
}

/// `s` without leading and trailing white space.
pub open spec fn trimmed(s: Seq<char>) -> Seq<char> {
    trim_end(trim_start(s))
}

pub proof fn lemma_trim_start_at(s: Seq<char>, i: int)
    requires
        0 <= i <= s.len(),
        forall|k: int| 0 <= k < i ==> is_white_space(#[trigger] s[k]),
        i == s.len() || !is_white_space(s[i]),
    ensures
        trim_start(s) == s.subrange(i, s.len() as int),
    decreases i,
{
    if i == 0 {
        assert(s.subrange(0, s.len() as int) =~= s);
    } else {
        let t = s.drop_first();
        assert forall|k: int| 0 <= k < i - 1 implies is_white_space(#[trigger] t[k]) by {
            assert(t[k] == s[k + 1]);
        }
        lemma_trim_start_at(t, i - 1);
        assert(t.subrange(i - 1, t.len() as int) =~= s.subrange(i, s.len() as int));
    }
}

pub proof fn lemma_trim_end_at(s: Seq<char>, j: int)
    requires
        0 <= j <= s.len(),
        forall|k: int| j <= k < s.len() ==> is_white_space(#[trigger] s[k]),
        j == 0 || !is_white_space(s[j - 1]),
    ensures
        trim_end(s) == s.subrange(0, j),
    decreases s.len() - j,
{
    if j == s.len() {
        assert(s.subrange(0, j) =~= s);
    } else {
        let t = s.drop_last();
        assert forall|k: int| j <= k < t.len() implies is_white_space(#[trigger] t[k]) by {
            assert(t[k] == s[k]);
        }
        lemma_trim_end_at(t, j);
        assert(t.subrange(0, j) =~= s.subrange(0, j));
    }
}

/// Appends `c` to `s`: `String::push`.
#[verifier::external_body]
fn push_char(s: &mut String, c: char)
    ensures
        final(s)@ == old(s)@.push(c),
{
    s.push(c);
}

/// The characters of `s`, in order.
pub fn chars_of(s: &str) -> (v: Vec<char>)
    ensures
        v@ == s@,
{
    let n = s.unicode_len();
    let mut v: Vec<char> = Vec::new();
    let mut k: usize = 0;
    while k < n
        invariant
            n == s@.len(),
            k <= n,
            v@ == s@.subrange(0, k as int),
        decreases n - k,
    {
        v.push(s.get_char(k));
        k += 1;
        assert(v@ =~= s@.subrange(0, k as int));
    }
    assert(s@.subrange(0, n as int) =~= s@);
    v
}

/// Appends `v[lo..hi]` to `out`.
fn push_chars(out: &mut String, v: &Vec<char>, lo: usize, hi: usize)
    requires
        lo <= hi <= v.len(),
    ensures
        final(out)@ == old(out)@ + v@.subrange(lo as int, hi as int),
{
    let mut k: usize = lo;
    while k < hi
        invariant
            lo <= k <= hi <= v.len(),
            out@ == old(out)@ + v@.subrange(lo as int, k as int),
        decreases hi - k,
    {
        push_char(out, v[k]);
        k += 1;
        assert(out@ =~= old(out)@ + v@.subrange(lo as int, k as int));
    }
}

/// `s` with leading and trailing white space removed, as `str::trim` does.
pub fn trim(s: &str) -> (r: String)
    ensures
        r@ == trimmed(s@),
{
    let chars = chars_of(s);
    let n = chars.len();
    let mut i: usize = 0;
    while i < n && is_white_space_char(chars[i])
        invariant
            chars@ == s@,
            n == chars.len(),
            i <= n,
            forall|k: int| 0 <= k < i ==> is_white_space(#[trigger] chars@[k]),
        decreases n - i,
    {
        i += 1;
    }
    let mut j: usize = n;
    while j > i && is_white_space_char(chars[j - 1])
        invariant
            chars@ == s@,
            n == chars.len(),
            i <= j <= n,
            forall|k: int| j <= k < n ==> is_white_space(#[trigger] chars@[k]),
        decreases j,
    {
        j -= 1;
    }
    proof {
        lemma_trim_start_at(s@, i as int);
        let t = s@.subrange(i as int, n as int);
        assert forall|k: int| j - i <= k < t.len() implies is_white_space(#[trigger] t[k]) by {
            assert(t[k] == s@[k + i]);
        }
        lemma_trim_end_at(t, j - i);
        assert(t.subrange(0, j - i) =~= s@.subrange(i as int, j as int));
    }
    let mut r = String::new();
    push_chars(&mut r, &chars, i, j);
    assert(r@ =~= s@.subrange(i as int, j as int));
    r
}


/// The character of the decimal digit `d`.
pub open spec fn digit_char(d: nat) -> char {
    (48 + d) as char
}

/// Whether `c` is one of the ASCII digits `0` to `9`.
pub open spec fn is_digit(c: char) -> bool {
    48 <= c as u32 <= 57
}

/// The decimal rendering of `n`, most significant digit first, without
/// leading zeros, as `Display` renders an unsigned integer.
pub open spec fn decimal(n: nat) -> Seq<char>
    decreases n,
{
    if n < 10 {
        seq![digit_char(n)]
    } else {
        decimal(n / 10).push(digit_char(n % 10))
    }
}

/// The decimal rendering of `x` with a leading `-` when it is negative, as
/// `Display` renders a signed integer.
pub open spec fn signed_decimal(x: int) -> Seq<char> {
    if x < 0 {
        seq!['-'] + decimal((-x) as nat)
    } else {
        decimal(x as nat)
    }
}

/// The number that the digit sequence `s` denotes.
pub open spec fn digits_value(s: Seq<char>) -> nat
    decreases s.len(),
{
    if s.len() == 0 {
        0
    } else {
        digits_value(s.drop_last()) * 10 + ((s.last() as u32) - 48) as nat
    }
}

/// A decimal rendering is a non-empty run of digits that denotes the
/// rendered number.
pub proof fn lemma_decimal_denotes(n: nat)
    ensures
        decimal(n).len() >= 1,
        forall|k: int| 0 <= k < decimal(n).len() ==> is_digit(#[trigger] decimal(n)[k]),
        digits_value(decimal(n)) == n,
    decreases n,
{
    let d = decimal(n);
    assert((digit_char(n % 10) as u32) - 48 == n % 10);
    if n < 10 {
        assert(d.drop_last() =~= Seq::<char>::empty());
        assert(digits_value(d.drop_last()) == 0);
    } else {
        lemma_decimal_denotes(n / 10);
        assert(d.drop_last() =~= decimal(n / 10));
        assert(d.last() == digit_char(n % 10));
        assert(n == (n / 10) * 10 + n % 10);
        assert forall|k: int| 0 <= k < d.len() implies is_digit(#[trigger] d[k]) by {
            if k < d.len() - 1 {
                assert(d[k] == decimal(n / 10)[k]);
            }
        }
    }
}

/// Distinct numbers have distinct decimal renderings.
pub proof fn lemma_decimal_injective(a: nat, b: nat)
    ensures
        decimal(a) == decimal(b) ==> a == b,
{
    lemma_decimal_denotes(a);
    lemma_decimal_denotes(b);
}

/// A decimal rendering starts with `0` only for zero itself: no number
/// other than zero is rendered with a leading zero, so the rendering has the
/// least number of digits that denotes the number.
pub proof fn lemma_decimal_no_leading_zero(n: nat)
    ensures
        decimal(n).len() >= 1,
        decimal(n)[0] == '0' <==> n == 0,
        n >= 10 ==> decimal(n).len() >= 2,
    decreases n,
{
    lemma_decimal_denotes(n);
    if n >= 10 {
        lemma_decimal_no_leading_zero(n / 10);
        assert(decimal(n)[0] == decimal(n / 10)[0]);
    } else {
        assert(decimal(n)[0] == digit_char(n));
        assert(('0' as u32) == 48);
        assert((digit_char(n) as u32) == 48 + n);
    }
}

/// The digit character for `d`.
fn digit(d: u128) -> (c: char)
    requires
        d < 10,
    ensures
        c == digit_char(d as nat),
{
    ((d as u8) + 48) as char
}

/// Appends the decimal rendering of `n` to `out`.
pub fn push_decimal(out: &mut String, n: u128)
    ensures
        final(out)@ == old(out)@ + decimal(n as nat),
    decreases n,
{
    if n >= 10 {
        push_decimal(out, n / 10);
    }
    push_char(out, digit(n % 10));
    proof {
        if n >= 10 {
            assert(decimal(n as nat) == decimal((n / 10) as nat).push(digit_char((n % 10) as nat)));
        }
    }
    assert(final(out)@ =~= old(out)@ + decimal(n as nat));
}

/// The decimal rendering of `n`.
pub fn decimal_string(n: u128) -> (r: String)
    ensures
        r@ == decimal(n as nat),
{
    let mut r = String::new();
    push_decimal(&mut r, n);
    assert(r@ =~= decimal(n as nat));
    r
}

/// Decodes `bytes` as UTF-8 text: `String::from_utf8`, which succeeds exactly
/// when the bytes are well-formed UTF-8 and then holds the decoded characters.
#[verifier::external_body]
pub(crate) fn utf8_decode(bytes: Vec<u8>) -> (r: Option<String>)
    ensures
        r is Some <==> valid_utf8(bytes@),
        r matches Some(t) ==> t@ == decode_utf8(bytes@),
{
    String::from_utf8(bytes).ok()
}

/// The pieces of `s` between occurrences of `sep`, as `str::split` with a
/// single character yields them: empty pieces included, and one piece more
/// than there are separators.
pub open spec fn split_on(s: Seq<char>, sep: char) -> Seq<Seq<char>>
    decreases s.len(),
{
    if s.len() == 0 {
        seq![Seq::<char>::empty()]
    } else {
        let pieces = split_on(s.drop_last(), sep);
        if s.last() == sep {
            pieces.push(Seq::<char>::empty())
        } else {
            pieces.update(pieces.len() - 1, pieces.last().push(s.last()))
        }
    }
}

/// The text made of `pieces` with `sep` between each two neighbours.
pub open spec fn join_with(pieces: Seq<Seq<char>>, sep: char) -> Seq<char>
    decreases pieces.len(),
{
    if pieces.len() == 0 {
        Seq::<char>::empty()
    } else if pieces.len() == 1 {
        pieces[0]
    } else {
        join_with(pieces.drop_last(), sep) + seq![sep] + pieces.last()
    }
}

/// Cutting at every separator loses nothing and leaves no separator inside
/// a piece: the pieces, joined with the separator, give back the text, and
/// none of them holds the separator. So there is one piece more than there
/// are separators.
pub proof fn lemma_split_rejoins(s: Seq<char>, sep: char)
    ensures
        split_on(s, sep).len() >= 1,
        join_with(split_on(s, sep), sep) == s,
        forall|i: int| 0 <= i < split_on(s, sep).len() ==> !(#[trigger] split_on(s, sep)[i]).contains(sep),
    decreases s.len(),
{
    if s.len() == 0 {
        assert(s =~= Seq::<char>::empty());
        assert(!Seq::<char>::empty().contains(sep));
    } else {
        let t = s.drop_last();
        let c = s.last();
        lemma_split_rejoins(t, sep);
        let pieces = split_on(t, sep);
        let new = split_on(s, sep);
        assert(t.push(c) =~= s);
        if c == sep {
            assert(new == pieces.push(Seq::<char>::empty()));
            assert(new.drop_last() =~= pieces);
            assert(join_with(new, sep) == join_with(pieces, sep) + seq![sep] + Seq::<char>::empty());
            assert(join_with(new, sep) =~= s);
            assert forall|i: int| 0 <= i < new.len() implies !(#[trigger] new[i]).contains(sep) by {
                if i < pieces.len() {
                    assert(new[i] == pieces[i]);
                } else {
                    assert(new[i] =~= Seq::<char>::empty());
                }
            }
        } else {
            let last = pieces.last();
            assert(new == pieces.update(pieces.len() - 1, last.push(c)));
            if pieces.len() == 1 {
                assert(join_with(pieces, sep) == pieces[0]);
                assert(new[0] == last.push(c));
                assert(join_with(new, sep) =~= s);
            } else {
                assert(new.drop_last() =~= pieces.drop_last());
                assert(join_with(pieces, sep) == join_with(pieces.drop_last(), sep) + seq![sep] + last);
                assert(join_with(new, sep) == join_with(new.drop_last(), sep) + seq![sep] + new.last());
                assert(join_with(new, sep) =~= s);
            }
            assert forall|i: int| 0 <= i < new.len() implies !(#[trigger] new[i]).contains(sep) by {
                if i < pieces.len() - 1 {
                    assert(new[i] == pieces[i]);
                } else {
                    assert(!pieces[i].contains(sep));
                    if new[i].contains(sep) {
                        let k = choose|k: int| 0 <= k < new[i].len() && new[i][k] == sep;
                        if k < last.len() {
                            assert(last[k] == sep);
                        }
                    }
                }
            }
        }
    }
}

/// There is always at least one piece.
pub proof fn lemma_split_nonempty(s: Seq<char>, sep: char)
    ensures
        split_on(s, sep).len() >= 1,
    decreases s.len(),
{
    if s.len() > 0 {
        lemma_split_nonempty(s.drop_last(), sep);
    }
}

/// Text without the separator is a single piece.
pub proof fn lemma_split_without_sep(s: Seq<char>, sep: char)
    requires
        !s.contains(sep),
    ensures
        split_on(s, sep) == seq![s],
    decreases s.len(),
{
    if s.len() > 0 {
        let t = s.drop_last();
        assert(!t.contains(sep)) by {
            if t.contains(sep) {
                let k = choose|k: int| 0 <= k < t.len() && t[k] == sep;
                assert(s[k] == sep);
            }
        }
        lemma_split_without_sep(t, sep);
        assert(s.last() != sep) by {
            assert(s[s.len() - 1] == s.last());
        }
        assert(t.push(s.last()) =~= s);
        assert(split_on(s, sep) =~= seq![s]);
    } else {
        assert(s =~= Seq::<char>::empty());
    }
}

/// Once there are two pieces, more text changes neither the first piece nor
/// the fact that there are at least two.
proof fn lemma_split_first_stable(p: Seq<char>, q: Seq<char>, sep: char)
    requires
        split_on(p, sep).len() >= 2,
    ensures
        split_on(p + q, sep).len() >= 2,
        split_on(p + q, sep)[0] == split_on(p, sep)[0],
    decreases q.len(),
{
    if q.len() == 0 {
        assert(p + q =~= p);
    } else {
        let q1 = q.drop_last();
        lemma_split_first_stable(p, q1, sep);
        assert((p + q).drop_last() =~= p + q1);
    }
}

/// The first piece of `a`, the separator, then `b`, is `a` when `a` holds no
/// separator.
pub proof fn lemma_split_first_piece(a: Seq<char>, b: Seq<char>, sep: char)
    requires
        !a.contains(sep),
    ensures
        split_on(a + seq![sep] + b, sep)[0] == a,
{
    lemma_split_without_sep(a, sep);
    let p = a + seq![sep];
    assert(p.drop_last() =~= a);
    assert(p.last() == sep);
    assert(split_on(p, sep) =~= seq![a, Seq::<char>::empty()]);
    lemma_split_first_stable(p, b, sep);
}

/// The pieces of `s` between occurrences of `sep`.
pub fn split_chars(s: &str, sep: char) -> (r: Vec<String>)
    ensures
        r@.map_values(|p: String| p@) == split_on(s@, sep),
        join_with(r@.map_values(|p: String| p@), sep) == s@,
        forall|i: int| 0 <= i < r@.len() ==> !(#[trigger] r@[i]@).contains(sep),
{
    proof {
        lemma_split_rejoins(s@, sep);
    }
    let chars = chars_of(s);
    let n = chars.len();
    let mut pieces: Vec<String> = Vec::new();
    let mut cur = String::new();
    let mut k: usize = 0;
    assert(s@.subrange(0, 0) =~= Seq::<char>::empty());
    assert(pieces@.map_values(|p: String| p@).push(cur@) =~= split_on(s@.subrange(0, 0), sep));
    while k < n
        invariant
            chars@ == s@,
            n == chars.len(),
            k <= n,
            pieces@.map_values(|p: String| p@).push(cur@) == split_on(s@.subrange(0, k as int), sep),
        decreases n - k,
    {
        let c = chars[k];
        let ghost before = s@.subrange(0, k as int);
        let ghost after = s@.subrange(0, k + 1);
        assert(after.drop_last() =~= before);
        assert(after.last() == c);
        let ghost old_pieces = pieces@.map_values(|p: String| p@);
        let ghost old_cur = cur@;
        if c == sep {
            let done = cur;
            pieces.push(done);
            cur = String::new();
            assert(pieces@.map_values(|p: String| p@) =~= old_pieces.push(old_cur));
            assert(pieces@.map_values(|p: String| p@).push(cur@) =~= split_on(after, sep));
        } else {
            push_char(&mut cur, c);
            assert(pieces@.map_values(|p: String| p@).push(cur@) =~= split_on(after, sep));
        }
        k += 1;
    }
    let ghost last_pieces = pieces@.map_values(|p: String| p@);
    pieces.push(cur);
    assert(pieces@.map_values(|p: String| p@) =~= last_pieces.push(cur@));
    assert(s@.subrange(0, n as int) =~= s@);
    proof {
        assert forall|i: int| 0 <= i < pieces@.len() implies !(#[trigger] pieces@[i]@).contains(sep) by {
            assert(pieces@.map_values(|p: String| p@)[i] == pieces@[i]@);
        }
    }
    pieces
}

} // verus!
