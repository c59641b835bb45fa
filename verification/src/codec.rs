use vstd::prelude::*;

use crate::record::{has_record_id, wf_records, Record, RecordStore, RecordV};
use crate::trusted::chars_to_string;
use vstd::std_specs::iter::IteratorSpec;

verus! {

// ---------------------------------------------------------------------------
// Field escaping.
//
// The durable file is a comma-separated text file, one line per record. So
// that any string can stand in a field, the four characters that carry
// structure are escaped: a backslash introduces `\\` (backslash), `\c`
// (comma), `\n` (line feed) and `\r` (carriage return). An encoded field
// therefore never contains a bare comma or line break, and rows and fields
// can be recovered by plain splitting.
// ---------------------------------------------------------------------------

/// No character of `s` equals `c`.
pub open spec fn no_char(s: Seq<char>, c: char) -> bool {
    forall|i: int| 0 <= i < s.len() ==> s[i] != c
}

/// The escape sequence of one character.
pub open spec fn esc_char(c: char) -> Seq<char> {
    if c == '\\' {
        seq!['\\', '\\']
    } else if c == ',' {
        seq!['\\', 'c']
    } else if c == '\n' {
        seq!['\\', 'n']
    } else if c == '\r' {
        seq!['\\', 'r']
    } else {
        seq![c]
    }
}

/// The escaped form of a field.
pub open spec fn escape_spec(s: Seq<char>) -> Seq<char>
    decreases s.len(),
{
    if s.len() == 0 {
        Seq::empty()
    } else {
        esc_char(s[0]) + escape_spec(s.drop_first())
    }
}

/// The character an escape pair `\x` stands for, if `x` is a valid escape.
pub open spec fn unesc_char(c: char) -> Option<char> {
    if c == '\\' {
        Some('\\')
    } else if c == 'c' {
        Some(',')
    } else if c == 'n' {
        Some('\n')
    } else if c == 'r' {
        Some('\r')
    } else {
        None
    }
}

/// The field an escaped segment stands for; `None` when a backslash is
/// dangling or followed by an unknown escape.
pub open spec fn unescape_spec(s: Seq<char>) -> Option<Seq<char>>
    decreases s.len(),
{
    if s.len() == 0 {
        Some(Seq::empty())
    } else if s[0] == '\\' {
        if s.len() == 1 {
            None
        } else {
            match unesc_char(s[1]) {
                Some(c) => match unescape_spec(s.skip(2)) {
                    Some(t) => Some(seq![c] + t),
                    None => None,
                },
                None => None,
            }
        }
    } else {
        match unescape_spec(s.drop_first()) {
            Some(t) => Some(seq![s[0]] + t),
            None => None,
        }
    }
}

/// Escaping distributes over concatenation.
pub proof fn lemma_escape_app(a: Seq<char>, b: Seq<char>)
    ensures
        escape_spec(a + b) == escape_spec(a) + escape_spec(b),
    decreases a.len(),
{
    if a.len() == 0 {
        assert(a + b =~= b);
        assert(escape_spec(a) + escape_spec(b) =~= escape_spec(b));
    } else {
        lemma_escape_app(a.drop_first(), b);
        assert((a + b).drop_first() =~= a.drop_first() + b);
        assert((a + b)[0] == a[0]);
        assert(esc_char(a[0]) + (escape_spec(a.drop_first()) + escape_spec(b)) =~= (esc_char(a[0])
            + escape_spec(a.drop_first())) + escape_spec(b));
    }
}

/// An escaped field contains no bare comma and no bare line break.
pub proof fn lemma_escape_clean(s: Seq<char>)
    ensures
        no_char(escape_spec(s), ','),
        no_char(escape_spec(s), '\n'),
    decreases s.len(),
{
    if s.len() == 0 {
    } else {
        lemma_escape_clean(s.drop_first());
        let e = esc_char(s[0]);
        let rest = escape_spec(s.drop_first());
        assert forall|i: int| 0 <= i < escape_spec(s).len() implies escape_spec(s)[i] != ','
            && escape_spec(s)[i] != '\n' by {
            if i < e.len() {
                assert(escape_spec(s)[i] == e[i]);
            } else {
                assert(escape_spec(s)[i] == rest[i - e.len()]);
            }
        }
    }
}

/// Unescaping inverts escaping: every field survives the round trip.
pub proof fn lemma_unescape_escape(s: Seq<char>)
    ensures
        unescape_spec(escape_spec(s)) == Some(s),
    decreases s.len(),
{
    if s.len() == 0 {
        assert(escape_spec(s) =~= Seq::<char>::empty());
        assert(unescape_spec(escape_spec(s)) == Some(Seq::<char>::empty()));
        assert(Seq::<char>::empty() =~= s);
    } else {
        lemma_unescape_escape(s.drop_first());
        let c = s[0];
        let e = esc_char(c);
        let rest = escape_spec(s.drop_first());
        let full = escape_spec(s);
        assert(full == e + rest);
        if c == '\\' || c == ',' || c == '\n' || c == '\r' {
            assert(e.len() == 2 && e[0] == '\\' && unesc_char(e[1]) == Some(c));
            assert(full[0] == '\\');
            assert(full.len() >= 2);
            assert(full[1] == e[1]);
            assert(full.skip(2) =~= rest);
            assert(unescape_spec(full) == Some(seq![c] + s.drop_first()));
            assert(seq![c] + s.drop_first() =~= s);
        } else {
            assert(e =~= seq![c]);
            assert(full[0] == c);
            assert(c != '\\');
            assert(full.drop_first() =~= rest);
            assert(unescape_spec(full) == Some(seq![c] + s.drop_first()));
            assert(seq![c] + s.drop_first() =~= s);
        }
    }
}

/// The characters of `s`, in order, as a vector.
fn str_to_chars(s: &str) -> (r: Vec<char>)
    ensures
        r@ == s@,
{
    broadcast use vstd::string::group_string_axioms;

    let it = s.chars();
    proof {
        assert(vstd::string::spec_iter(s).remaining() == s@);
    }
    let mut it = it;
    let mut r: Vec<char> = Vec::new();
    proof {
        assert(r@ + it.remaining() =~= s@);
    }
    loop
        invariant
            it.obeys_prophetic_iter_laws(),
            it.decrease() is Some,
            r@ + it.remaining() == s@,
        decreases it.decrease()->0,
    {
        let ghost prev = it;
        let ghost prev_r = r@;
        match it.next() {
            Some(c) => {
                r.push(c);
                proof {
                    assert(prev.remaining().len() > 0);
                    assert(it.remaining() == prev.remaining().drop_first());
                    assert(c == prev.remaining()[0]);
                    assert(r@ + it.remaining() =~= prev_r + prev.remaining());
                }
            },
            None => {
                proof {
                    assert(it.remaining() == prev.remaining());
                    assert(prev.remaining().len() == 0);
                    assert(r@ =~= s@);
                }
                return r;
            },
        }
    }
}

/// Appends the escaped form of `s` to `out`.
fn push_escaped(out: &mut Vec<char>, s: &Vec<char>)
    ensures
        final(out)@ == old(out)@ + escape_spec(s@),
{
    let mut i: usize = 0;
    proof {
        assert(s@.take(0) =~= Seq::<char>::empty());
        assert(out@ =~= out@ + escape_spec(s@.take(0)));
    }
    while i < s.len()
        invariant
            0 <= i <= s@.len(),
            out@ == old(out)@ + escape_spec(s@.take(i as int)),
        decreases s@.len() - i,
    {
        let ghost prefix = s@.take(i as int);
        let c = s[i];
        if c == '\\' {
            out.push('\\');
            out.push('\\');
        } else if c == ',' {
            out.push('\\');
            out.push('c');
        } else if c == '\n' {
            out.push('\\');
            out.push('n');
        } else if c == '\r' {
            out.push('\\');
            out.push('r');
        } else {
            out.push(c);
        }
        proof {
            assert(out@ =~= old(out)@ + (escape_spec(prefix) + esc_char(c)));
            lemma_escape_app(prefix, seq![c]);
            assert(seq![c].drop_first() =~= Seq::<char>::empty());
            assert(escape_spec(seq![c]) == esc_char(c) + escape_spec(Seq::<char>::empty()));
            assert(escape_spec(seq![c]) =~= esc_char(c));
            assert(escape_spec(prefix + seq![c]) =~= escape_spec(prefix) + esc_char(c));
            assert(s@.take(i + 1) =~= prefix + seq![c]);
        }
        i += 1;
    }
    proof {
        assert(s@.take(s@.len() as int) =~= s@);
    }
}

/// Recovers a field from its escaped segment; `None` on a segment no
/// escaping produces.
fn unescape_segment(s: &Vec<char>) -> (r: Option<Vec<char>>)
    ensures
        r is Some <==> unescape_spec(s@) is Some,
        r matches Some(v) ==> unescape_spec(s@) == Some(v@),
{
    let mut out: Vec<char> = Vec::new();
    let mut i: usize = 0;
    proof {
        assert(s@.skip(0) =~= s@);
        assert(out@ =~= Seq::<char>::empty());
    }
    while i < s.len()
        invariant
            0 <= i <= s@.len(),
            unescape_spec(s@) is Some <==> unescape_spec(s@.skip(i as int)) is Some,
            forall|t: Seq<char>|
                unescape_spec(s@.skip(i as int)) == Some(t) ==> unescape_spec(s@) == Some(
                    out@ + t,
                ),
        decreases s@.len() - i,
    {
        let ghost rest = s@.skip(i as int);
        proof {
            assert(rest.len() > 0);
            assert(rest[0] == s@[i as int]);
        }
        let c = s[i];
        if c == '\\' {
            if i + 1 == s.len() {
                proof {
                    assert(rest.len() == 1);
                    assert(unescape_spec(rest) is None);
                }
                return None;
            }
            let n = s[i + 1];
            proof {
                assert(rest[1] == s@[i as int + 1]);
            }
            let u: char;
            if n == '\\' {
                u = '\\';
            } else if n == 'c' {
                u = ',';
            } else if n == 'n' {
                u = '\n';
            } else if n == 'r' {
                u = '\r';
            } else {
                proof {
                    assert(unesc_char(rest[1]) is None);
                    assert(unescape_spec(rest) is None);
                }
                return None;
            }
            proof {
                assert(unesc_char(rest[1]) == Some(u));
                assert(rest.skip(2) =~= s@.skip(i as int + 2));
            }
            let ghost prev_out = out@;
            out.push(u);
            proof {
                assert forall|t: Seq<char>|
                    unescape_spec(s@.skip(i as int + 2)) == Some(t) implies unescape_spec(s@)
                    == Some(out@ + t) by {
                    assert(unescape_spec(rest) == Some(seq![u] + t));
                    assert(prev_out + (seq![u] + t) =~= out@ + t);
                }
            }
            i += 2;
        } else {
            proof {
                assert(rest.drop_first() =~= s@.skip(i as int + 1));
            }
            let ghost prev_out = out@;
            out.push(c);
            proof {
                assert forall|t: Seq<char>|
                    unescape_spec(s@.skip(i as int + 1)) == Some(t) implies unescape_spec(s@)
                    == Some(out@ + t) by {
                    assert(unescape_spec(rest) == Some(seq![c] + t));
                    assert(prev_out + (seq![c] + t) =~= out@ + t);
                }
            }
            i += 1;
        }
    }
    proof {
        assert(s@.skip(i as int) =~= Seq::<char>::empty());
        assert(unescape_spec(s@.skip(i as int)) == Some(Seq::<char>::empty()));
        assert(out@ + Seq::<char>::empty() =~= out@);
    }
    Some(out)
}

// ---------------------------------------------------------------------------
// Splitting and joining on a separator character.
// ---------------------------------------------------------------------------

/// The parts joined with `sep` between each two.
pub open spec fn join_with(parts: Seq<Seq<char>>, sep: char) -> Seq<char>
    decreases parts.len(),
{
    if parts.len() == 0 {
        Seq::empty()
    } else if parts.len() == 1 {
        parts[0]
    } else {
        parts[0] + seq![sep] + join_with(parts.drop_first(), sep)
    }
}

/// The maximal `sep`-free segments of `s`, in order; always at least one
/// (an empty input is one empty segment).
pub open spec fn split_on(s: Seq<char>, sep: char) -> Seq<Seq<char>>
    decreases s.len(),
{
    if s.len() == 0 {
        seq![Seq::empty()]
    } else if s[0] == sep {
        seq![Seq::empty()] + split_on(s.drop_first(), sep)
    } else {
        let r = split_on(s.drop_first(), sep);
        seq![seq![s[0]] + r[0]] + r.drop_first()
    }
}

/// A split yields at least one segment.
pub proof fn lemma_split_len(s: Seq<char>, sep: char)
    ensures
        split_on(s, sep).len() >= 1,
    decreases s.len(),
{
    if s.len() == 0 {
    } else {
        lemma_split_len(s.drop_first(), sep);
    }
}

/// Splitting a `sep`-free string yields that one segment.
pub proof fn lemma_split_clean(s: Seq<char>, sep: char)
    requires
        no_char(s, sep),
    ensures
        split_on(s, sep) == seq![s],
    decreases s.len(),
{
    if s.len() == 0 {
        assert(split_on(s, sep) =~~= seq![s]);
    } else {
        let rest = s.drop_first();
        assert(forall|i: int| 0 <= i < rest.len() ==> rest[i] == s[i + 1]);
        lemma_split_clean(rest, sep);
        assert(s[0] != sep);
        assert(seq![s[0]] + rest =~= s);
        assert(split_on(s, sep) =~~= seq![s]);
    }
}

/// Splitting `x + sep + t` with a `sep`-free `x` peels `x` off as the first
/// segment.
pub proof fn lemma_split_prepend(x: Seq<char>, t: Seq<char>, sep: char)
    requires
        no_char(x, sep),
    ensures
        split_on(x + seq![sep] + t, sep) == seq![x] + split_on(t, sep),
    decreases x.len(),
{
    let s = x + seq![sep] + t;
    if x.len() == 0 {
        assert(s[0] == sep);
        assert(s.drop_first() =~= t);
        assert(split_on(s, sep) =~~= seq![x] + split_on(t, sep));
    } else {
        let xr = x.drop_first();
        assert(forall|i: int| 0 <= i < xr.len() ==> xr[i] == x[i + 1]);
        lemma_split_prepend(xr, t, sep);
        assert(s[0] == x[0]);
        assert(s[0] != sep);
        assert(s.drop_first() =~= xr + seq![sep] + t);
        let r = split_on(s.drop_first(), sep);
        assert(r == seq![xr] + split_on(t, sep));
        lemma_split_len(t, sep);
        assert(r[0] == xr);
        assert(seq![s[0]] + r[0] =~= x);
        assert(r.drop_first() =~= split_on(t, sep));
        assert(split_on(s, sep) =~~= seq![x] + split_on(t, sep));
    }
}

/// Splitting inverts joining, as long as no part contains the separator.
pub proof fn lemma_split_join(parts: Seq<Seq<char>>, sep: char)
    requires
        parts.len() >= 1,
        forall|i: int| 0 <= i < parts.len() ==> no_char(#[trigger] parts[i], sep),
    ensures
        split_on(join_with(parts, sep), sep) == parts,
    decreases parts.len(),
{
    if parts.len() == 1 {
        lemma_split_clean(parts[0], sep);
        assert(split_on(join_with(parts, sep), sep) =~~= parts);
    } else {
        let rest = parts.drop_first();
        assert(forall|i: int| 0 <= i < rest.len() ==> rest[i] == parts[i + 1]);
        lemma_split_join(rest, sep);
        assert(join_with(parts, sep) == parts[0] + seq![sep] + join_with(rest, sep));
        lemma_split_prepend(parts[0], join_with(rest, sep), sep);
        assert(split_on(join_with(parts, sep), sep) =~~= parts);
    }
}

/// Joining one more part on the right.
pub proof fn lemma_join_snoc(parts: Seq<Seq<char>>, p: Seq<char>, sep: char)
    requires
        parts.len() >= 1,
    ensures
        join_with(parts.push(p), sep) == join_with(parts, sep) + seq![sep] + p,
    decreases parts.len(),
{
    let w = parts.push(p);
    if parts.len() == 1 {
        assert(w.len() == 2);
        assert(w[0] == parts[0]);
        assert(w.drop_first() =~= seq![p]);
        assert(join_with(seq![p], sep) == p);
        assert(join_with(w, sep) =~= join_with(parts, sep) + seq![sep] + p);
    } else {
        lemma_join_snoc(parts.drop_first(), p, sep);
        assert(w[0] == parts[0]);
        assert(w.drop_first() =~= parts.drop_first().push(p));
        assert(join_with(w, sep) == w[0] + seq![sep] + join_with(parts.drop_first().push(p), sep));
        assert(join_with(w, sep) =~= join_with(parts, sep) + seq![sep] + p);
    }
}

/// Splits `s` into its `sep`-free segments, as [`split_on`] describes.
fn split_chars(s: &Vec<char>, sep: char) -> (r: Vec<Vec<char>>)
    ensures
        r@.len() == split_on(s@, sep).len(),
        forall|i: int| 0 <= i < r@.len() ==> r@[i]@ == split_on(s@, sep)[i],
{
    let mut out: Vec<Vec<char>> = Vec::new();
    let mut cur: Vec<char> = Vec::new();
    let mut i: usize = 0;
    proof {
        assert(s@.skip(0) =~= s@);
        lemma_split_len(s@, sep);
        assert(cur@ + split_on(s@.skip(0), sep)[0] =~= split_on(s@, sep)[0]);
        assert(out@.map_values(|v: Vec<char>| v@) + seq![cur@ + split_on(s@.skip(0), sep)[0]]
            + split_on(s@.skip(0), sep).drop_first() =~~= split_on(s@, sep));
    }
    while i < s.len()
        invariant
            0 <= i <= s@.len(),
            split_on(s@, sep) =~~= out@.map_values(|v: Vec<char>| v@) + seq![cur@ + split_on(
                s@.skip(i as int),
                sep,
            )[0]] + split_on(s@.skip(i as int), sep).drop_first(),
        decreases s@.len() - i,
    {
        let ghost rest = s@.skip(i as int);
        proof {
            assert(rest.len() > 0);
            assert(rest[0] == s@[i as int]);
            assert(rest.drop_first() =~= s@.skip(i as int + 1));
            lemma_split_len(s@.skip(i as int + 1), sep);
        }
        let c = s[i];
        if c == sep {
            let ghost prev_out = out@;
            let ghost prev_cur = cur@;
            let done = cur;
            cur = Vec::new();
            out.push(done);
            proof {
                let f = |v: Vec<char>| v@;
                assert(split_on(rest, sep) == seq![Seq::<char>::empty()] + split_on(
                    s@.skip(i as int + 1),
                    sep,
                ));
                assert(prev_cur + split_on(rest, sep)[0] =~= prev_cur);
                assert(out@.map_values(f) =~= prev_out.map_values(f).push(prev_cur));
                assert(split_on(rest, sep).drop_first() =~= split_on(s@.skip(i as int + 1), sep));
                assert(cur@ + split_on(s@.skip(i as int + 1), sep)[0] =~= split_on(
                    s@.skip(i as int + 1),
                    sep,
                )[0]);
                lemma_split_len(s@.skip(i as int + 1), sep);
                assert(out@.map_values(f) + seq![cur@ + split_on(s@.skip(i as int + 1), sep)[0]]
                    + split_on(s@.skip(i as int + 1), sep).drop_first() =~~= prev_out.map_values(f)
                    + seq![prev_cur + split_on(rest, sep)[0]] + split_on(rest, sep).drop_first());
            }
        } else {
            let ghost prev_cur = cur@;
            cur.push(c);
            proof {
                let u = split_on(s@.skip(i as int + 1), sep);
                assert(split_on(rest, sep) == seq![seq![rest[0]] + u[0]] + u.drop_first());
                assert(prev_cur + split_on(rest, sep)[0] =~= cur@ + u[0]);
                assert(split_on(rest, sep).drop_first() =~= u.drop_first());
            }
        }
        i += 1;
    }
    proof {
        assert(s@.skip(i as int) =~= Seq::<char>::empty());
        assert(split_on(Seq::<char>::empty(), sep) == seq![Seq::<char>::empty()]);
        assert(cur@ + Seq::<char>::empty() =~= cur@);
    }
    let ghost pre = out@;
    out.push(cur);
    proof {
        let f = |v: Vec<char>| v@;
        assert(out@.map_values(f) =~= pre.map_values(f).push(
            cur@ + split_on(Seq::<char>::empty(), sep)[0],
        ));
        assert(seq![Seq::<char>::empty()].drop_first() =~= Seq::<Seq<char>>::empty());
        assert(split_on(s@, sep) =~~= out@.map_values(f));
        assert(forall|i: int|
            0 <= i < out@.len() ==> out@.map_values(f)[i] == #[trigger] out@[i]@);
    }
    out
}

// ---------------------------------------------------------------------------
// Decimal rendering and reading of record ids.
// ---------------------------------------------------------------------------

/// Whether `c` is a decimal digit.
pub open spec fn is_digit(c: char) -> bool {
    c == '0' || c == '1' || c == '2' || c == '3' || c == '4' || c == '5' || c == '6' || c == '7'
        || c == '8' || c == '9'
}

/// The digit character of a value below ten.
pub open spec fn digit_of(d: int) -> char {
    if d == 0 {
        '0'
    } else if d == 1 {
        '1'
    } else if d == 2 {
        '2'
    } else if d == 3 {
        '3'
    } else if d == 4 {
        '4'
    } else if d == 5 {
        '5'
    } else if d == 6 {
        '6'
    } else if d == 7 {
        '7'
    } else if d == 8 {
        '8'
    } else {
        '9'
    }
}

/// The value of a digit character.
pub open spec fn digit_val(c: char) -> int {
    if c == '0' {
        0
    } else if c == '1' {
        1
    } else if c == '2' {
        2
    } else if c == '3' {
        3
    } else if c == '4' {
        4
    } else if c == '5' {
        5
    } else if c == '6' {
        6
    } else if c == '7' {
        7
    } else if c == '8' {
        8
    } else {
        9
    }
}

/// The decimal rendering of a non-negative number, most significant digit
/// first, without leading zeros (a single `0` for zero).
pub open spec fn decimal_of(n: int) -> Seq<char>
    recommends
        n >= 0,
    decreases n,
{
    if n <= 9 {
        seq![digit_of(n)]
    } else {
        decimal_of(n / 10) + seq![digit_of(n % 10)]
    }
}

/// Every character of `s` is a decimal digit.
pub open spec fn all_digits(s: Seq<char>) -> bool {
    forall|i: int| 0 <= i < s.len() ==> is_digit(s[i])
}

/// The number a digit string denotes.
pub open spec fn digits_val(s: Seq<char>) -> int
    decreases s.len(),
{
    if s.len() == 0 {
        0
    } else {
        digits_val(s.drop_last()) * 10 + digit_val(s.last())
    }
}

/// A digit string denotes a non-negative number.
pub proof fn lemma_digits_val_nonneg(s: Seq<char>)
    ensures
        digits_val(s) >= 0,
    decreases s.len(),
{
    if s.len() == 0 {
    } else {
        lemma_digits_val_nonneg(s.drop_last());
    }
}

/// Reading back a decimal rendering gives the number: the digits are digits,
/// there is at least one, none is a separator, and the value is the one
/// rendered.
pub proof fn lemma_decimal_round_trip(n: int)
    requires
        n >= 0,
    ensures
        all_digits(decimal_of(n)),
        decimal_of(n).len() >= 1,
        digits_val(decimal_of(n)) == n,
        no_char(decimal_of(n), ','),
        no_char(decimal_of(n), '\n'),
    decreases n,
{
    if n <= 9 {
        assert(decimal_of(n) == seq![digit_of(n)]);
        assert(digits_val(decimal_of(n)) == digits_val(seq![digit_of(n)].drop_last()) * 10
            + digit_val(digit_of(n)));
        assert(seq![digit_of(n)].drop_last() =~= Seq::<char>::empty());
    } else {
        lemma_decimal_round_trip(n / 10);
        let a = decimal_of(n / 10);
        let s = decimal_of(n);
        assert(s == a + seq![digit_of(n % 10)]);
        assert(s.drop_last() =~= a);
        assert(s.last() == digit_of(n % 10));
        assert(0 <= n % 10 <= 9);
        assert(digit_val(digit_of(n % 10)) == n % 10);
        assert(digits_val(s) == digits_val(a) * 10 + n % 10);
        assert(n / 10 * 10 + n % 10 == n) by {
            vstd::arithmetic::div_mod::lemma_fundamental_div_mod(n, 10);
        }
        assert forall|i: int| 0 <= i < s.len() implies is_digit(s[i]) && s[i] != ',' && s[i]
            != '\n' by {
            if i < a.len() {
                assert(s[i] == a[i]);
            } else {
                assert(s[i] == digit_of(n % 10));
            }
        }
    }
}

/// A longer digit string never denotes a smaller number: the value of a
/// prefix bounds the value of the whole from below.
pub proof fn lemma_digits_val_prefix(s: Seq<char>, i: int)
    requires
        0 <= i <= s.len(),
    ensures
        digits_val(s) >= digits_val(s.take(i)),
    decreases s.len() - i,
{
    if i == s.len() {
        assert(s.take(i) =~= s);
    } else {
        lemma_digits_val_prefix(s, i + 1);
        let t = s.take(i + 1);
        assert(t.drop_last() =~= s.take(i));
        assert(t.last() == s[i]);
        assert(digits_val(t) == digits_val(s.take(i)) * 10 + digit_val(s[i]));
        lemma_digits_val_nonneg(s.take(i));
        assert(digit_val(s[i]) >= 0);
    }
}

/// The digit character of a value below ten (executable form).
fn digit_char(d: u32) -> (r: char)
    requires
        d <= 9,
    ensures
        r == digit_of(d as int),
{
    match d {
        0 => '0',
        1 => '1',
        2 => '2',
        3 => '3',
        4 => '4',
        5 => '5',
        6 => '6',
        7 => '7',
        8 => '8',
        _ => '9',
    }
}

/// The value of a digit character, if it is one (executable form).
fn char_digit(c: char) -> (r: Option<u32>)
    ensures
        r is Some <==> is_digit(c),
        r matches Some(d) ==> d == digit_val(c) && d <= 9,
{
    match c {
        '0' => Some(0),
        '1' => Some(1),
        '2' => Some(2),
        '3' => Some(3),
        '4' => Some(4),
        '5' => Some(5),
        '6' => Some(6),
        '7' => Some(7),
        '8' => Some(8),
        '9' => Some(9),
        _ => None,
    }
}

/// Appends the decimal rendering of `n` to `out`.
fn push_decimal(out: &mut Vec<char>, n: u32)
    ensures
        final(out)@ == old(out)@ + decimal_of(n as int),
    decreases n,
{
    if n <= 9 {
        out.push(digit_char(n));
        proof {
            assert(old(out)@.push(digit_of(n as int)) =~= old(out)@ + seq![digit_of(n as int)]);
        }
    } else {
        let ghost mid_expect = old(out)@ + decimal_of(n as int / 10);
        push_decimal(out, n / 10);
        out.push(digit_char(n % 10));
        proof {
            assert(final(out)@ =~= old(out)@ + (decimal_of(n as int / 10) + seq![digit_of(
                n as int % 10,
            )]));
        }
    }
}

/// Reads a decimal segment as a record id. `None` when the segment is empty,
/// has a non-digit, or denotes a value beyond `u32`.
fn parse_decimal(s: &Vec<char>) -> (r: Option<u32>)
    ensures
        r is Some <==> s@.len() > 0 && all_digits(s@) && digits_val(s@) <= u32::MAX,
        r matches Some(v) ==> v as int == digits_val(s@),
{
    if s.len() == 0 {
        return None;
    }
    let mut acc: u32 = 0;
    let mut i: usize = 0;
    proof {
        assert(s@.take(0) =~= Seq::<char>::empty());
    }
    while i < s.len()
        invariant
            0 <= i <= s@.len(),
            s@.len() > 0,
            acc as int == digits_val(s@.take(i as int)),
            forall|j: int| 0 <= j < i ==> is_digit(s@[j]),
        decreases s@.len() - i,
    {
        let c = s[i];
        let d = match char_digit(c) {
            Some(d) => d,
            None => {
                return None;
            },
        };
        proof {
            assert(s@.take(i as int + 1).drop_last() =~= s@.take(i as int));
            assert(s@.take(i as int + 1).last() == s@[i as int]);
        }
        if acc > (u32::MAX - d) / 10 {
            proof {
                let hi = (u32::MAX - d) as int;
                vstd::arithmetic::div_mod::lemma_fundamental_div_mod(hi, 10);
                assert(hi % 10 <= 9);
                assert(acc as int * 10 >= (hi / 10 + 1) * 10);
                assert(digits_val(s@.take(i as int + 1)) == acc as int * 10 + d);
                assert(digits_val(s@.take(i as int + 1)) > u32::MAX);
                lemma_digits_val_prefix(s@, i as int + 1);
            }
            return None;
        }
        proof {
            assert(acc as int <= ((u32::MAX - d) as int) / 10);
            vstd::arithmetic::div_mod::lemma_fundamental_div_mod((u32::MAX - d) as int, 10);
            assert(acc as int * 10 + d <= u32::MAX);
        }
        acc = acc * 10 + d;
        i += 1;
    }
    proof {
        assert(s@.take(i as int) =~= s@);
    }
    Some(acc)
}

// ---------------------------------------------------------------------------
// Rows and the durable file.
//
// The file is one header line followed by one line per record, each line the
// six fields `id, subjectName, trainingName, dueDate, status, createdBy`
// separated by commas, with the field contents escaped as above. The column
// order is significant: a load rejects a file whose header differs, and a
// line that does not parse is reported as a malformed row rather than
// aborting the load.
// ---------------------------------------------------------------------------

/// The header line naming the record fields in their fixed order.
pub open spec fn header() -> Seq<char> {
    "id,subjectName,trainingName,dueDate,status,createdBy"@
}

/// The six encoded fields of a record's row.
pub open spec fn row_fields(r: RecordV) -> Seq<Seq<char>> {
    seq![
        decimal_of(r.id as int),
        escape_spec(r.subject_name),
        escape_spec(r.training_name),
        escape_spec(r.due_date),
        escape_spec(r.status),
        escape_spec(r.created_by),
    ]
}

/// A record's line in the durable file.
pub open spec fn encode_row(r: RecordV) -> Seq<char> {
    join_with(row_fields(r), ',')
}

/// The full contents of the durable file for these records, in order: the
/// header line, then one line per record.
pub open spec fn encode_file_spec(rs: Seq<RecordV>) -> Seq<char> {
    join_with(seq![header()] + rs.map_values(|r: RecordV| encode_row(r)), '\n')
}

/// The record a line denotes: six comma-separated fields, a decimal id that
/// fits the id type, every other field a well-formed escaped segment.
pub open spec fn parse_row_spec(line: Seq<char>) -> Option<RecordV> {
    let fields = split_on(line, ',');
    if fields.len() != 6 {
        None
    } else if !(fields[0].len() > 0 && all_digits(fields[0]) && digits_val(fields[0])
        <= u32::MAX) {
        None
    } else {
        match (unescape_spec(fields[1]), unescape_spec(fields[2]), unescape_spec(fields[3]),
        unescape_spec(fields[4]), unescape_spec(fields[5])) {
            (Some(subject), Some(training), Some(due), Some(status), Some(created)) => Some(
                RecordV {
                    id: digits_val(fields[0]) as u32,
                    subject_name: subject,
                    training_name: training,
                    due_date: due,
                    status: status,
                    created_by: created,
                },
            ),
            _ => None,
        }
    }
}

/// Spec-level image of one row's parse outcome.
pub enum RowParseV {
    Parsed(RecordV),
    Malformed(Seq<char>),
}

/// One row's parse outcome: the record it denotes, or the raw line when it
/// denotes none. The caller decides what a malformed row means; the store
/// loader skips it.
#[derive(Debug)]
pub enum RowParse {
    Parsed(Record),
    Malformed(String),
}

impl View for RowParse {
    type V = RowParseV;

    open spec fn view(&self) -> RowParseV {
        match self {
            RowParse::Parsed(r) => RowParseV::Parsed(r@),
            RowParse::Malformed(s) => RowParseV::Malformed(s@),
        }
    }
}

/// A line's tagged parse outcome.
pub open spec fn parse_line_tagged(line: Seq<char>) -> RowParseV {
    match parse_row_spec(line) {
        Some(r) => RowParseV::Parsed(r),
        None => RowParseV::Malformed(line),
    }
}

/// The tagged rows of a whole file. An empty file has no rows; a file whose
/// first line is not the exact header yields every line as malformed.
pub open spec fn parse_file_spec(s: Seq<char>) -> Seq<RowParseV> {
    if s.len() == 0 {
        Seq::empty()
    } else {
        let lines = split_on(s, '\n');
        if lines[0] == header() {
            lines.drop_first().map_values(|l: Seq<char>| parse_line_tagged(l))
        } else {
            lines.map_values(|l: Seq<char>| RowParseV::Malformed(l))
        }
    }
}

/// A join of `c`-free parts with a separator other than `c` is `c`-free.
pub proof fn lemma_join_no_char(parts: Seq<Seq<char>>, sep: char, c: char)
    requires
        c != sep,
        forall|i: int| 0 <= i < parts.len() ==> no_char(#[trigger] parts[i], c),
    ensures
        no_char(join_with(parts, sep), c),
    decreases parts.len(),
{
    if parts.len() == 0 {
    } else if parts.len() == 1 {
        assert(join_with(parts, sep) == parts[0]);
    } else {
        let rest = parts.drop_first();
        assert(forall|i: int| 0 <= i < rest.len() ==> rest[i] == parts[i + 1]);
        lemma_join_no_char(rest, sep, c);
        let a = parts[0];
        let b = join_with(rest, sep);
        let s = join_with(parts, sep);
        assert(s == a + seq![sep] + b);
        assert forall|i: int| 0 <= i < s.len() implies s[i] != c by {
            if i < a.len() {
                assert(s[i] == a[i]);
            } else if i == a.len() {
                assert(s[i] == sep);
            } else {
                assert(s[i] == b[i - a.len() - 1]);
            }
        }
    }
}

/// The unfolded shape of a six-field join.
pub proof fn lemma_join6(f: Seq<Seq<char>>, sep: char)
    requires
        f.len() == 6,
    ensures
        join_with(f, sep) == f[0] + seq![sep] + (f[1] + seq![sep] + (f[2] + seq![sep] + (f[3]
            + seq![sep] + (f[4] + seq![sep] + f[5])))),
{
    let d1 = f.drop_first();
    let d2 = d1.drop_first();
    let d3 = d2.drop_first();
    let d4 = d3.drop_first();
    let d5 = d4.drop_first();
    assert(d1.len() == 5 && d1[0] == f[1]);
    assert(d2.len() == 4 && d2[0] == f[2]);
    assert(d3.len() == 3 && d3[0] == f[3]);
    assert(d4.len() == 2 && d4[0] == f[4]);
    assert(d5.len() == 1 && d5[0] == f[5]);
    assert(join_with(d5, sep) == f[5]);
    assert(join_with(d4, sep) == f[4] + seq![sep] + join_with(d5, sep));
    assert(join_with(d3, sep) == f[3] + seq![sep] + join_with(d4, sep));
    assert(join_with(d2, sep) == f[2] + seq![sep] + join_with(d3, sep));
    assert(join_with(d1, sep) == f[1] + seq![sep] + join_with(d2, sep));
    assert(join_with(f, sep) == f[0] + seq![sep] + join_with(d1, sep));
    assert(join_with(f, sep) =~= f[0] + seq![sep] + (f[1] + seq![sep] + (f[2] + seq![sep] + (f[3]
        + seq![sep] + (f[4] + seq![sep] + f[5])))));
}

/// Every field of a record's row is free of bare commas and line breaks.
pub proof fn lemma_row_fields_clean(r: RecordV)
    ensures
        forall|i: int| 0 <= i < row_fields(r).len() ==> no_char(#[trigger] row_fields(r)[i], ','),
        forall|i: int| 0 <= i < row_fields(r).len() ==> no_char(#[trigger] row_fields(r)[i], '\n'),
{
    lemma_decimal_round_trip(r.id as int);
    lemma_escape_clean(r.subject_name);
    lemma_escape_clean(r.training_name);
    lemma_escape_clean(r.due_date);
    lemma_escape_clean(r.status);
    lemma_escape_clean(r.created_by);
    assert forall|i: int| 0 <= i < row_fields(r).len() implies no_char(
        #[trigger] row_fields(r)[i],
        ',',
    ) && no_char(row_fields(r)[i], '\n') by {
        if i == 0 {
            assert(row_fields(r)[i] == decimal_of(r.id as int));
        } else if i == 1 {
            assert(row_fields(r)[i] == escape_spec(r.subject_name));
        } else if i == 2 {
            assert(row_fields(r)[i] == escape_spec(r.training_name));
        } else if i == 3 {
            assert(row_fields(r)[i] == escape_spec(r.due_date));
        } else if i == 4 {
            assert(row_fields(r)[i] == escape_spec(r.status));
        } else {
            assert(row_fields(r)[i] == escape_spec(r.created_by));
        }
    }
}

/// A record's line contains no bare line break.
pub proof fn lemma_row_clean(r: RecordV)
    ensures
        no_char(encode_row(r), '\n'),
{
    lemma_row_fields_clean(r);
    lemma_join_no_char(row_fields(r), ',', '\n');
}

/// Parsing a record's encoded line gives that record back.
pub proof fn lemma_row_round_trip(r: RecordV)
    ensures
        parse_row_spec(encode_row(r)) == Some(r),
{
    lemma_row_fields_clean(r);
    lemma_split_join(row_fields(r), ',');
    let fields = split_on(encode_row(r), ',');
    assert(fields == row_fields(r));
    assert(fields[0] == decimal_of(r.id as int));
    lemma_decimal_round_trip(r.id as int);
    lemma_unescape_escape(r.subject_name);
    lemma_unescape_escape(r.training_name);
    lemma_unescape_escape(r.due_date);
    lemma_unescape_escape(r.status);
    lemma_unescape_escape(r.created_by);
    assert(fields[1] == escape_spec(r.subject_name));
    assert(fields[2] == escape_spec(r.training_name));
    assert(fields[3] == escape_spec(r.due_date));
    assert(fields[4] == escape_spec(r.status));
    assert(fields[5] == escape_spec(r.created_by));
}

/// Parsing an encoded file gives every record back, in order, each row
/// well-formed.
pub proof fn lemma_file_round_trip(rs: Seq<RecordV>)
    ensures
        parse_file_spec(encode_file_spec(rs)) == rs.map_values(
            |r: RecordV| RowParseV::Parsed(r),
        ),
{
    let rows = rs.map_values(|r: RecordV| encode_row(r));
    let parts = seq![header()] + rows;
    assert(parts.len() >= 1);
    reveal_strlit("id,subjectName,trainingName,dueDate,status,createdBy");
    assert(no_char(header(), '\n'));
    assert forall|i: int| 0 <= i < parts.len() implies no_char(#[trigger] parts[i], '\n') by {
        if i == 0 {
            assert(parts[i] == header());
        } else {
            assert(parts[i] == encode_row(rs[i - 1]));
            lemma_row_clean(rs[i - 1]);
        }
    }
    lemma_split_join(parts, '\n');
    let s = encode_file_spec(rs);
    assert(s == join_with(parts, '\n'));
    let lines = split_on(s, '\n');
    assert(lines == parts);
    assert(header().len() > 0) by {
        reveal_strlit("id,subjectName,trainingName,dueDate,status,createdBy");
    }
    assert(s.len() > 0) by {
        if parts.len() == 1 {
            assert(s == parts[0]);
        }
    }
    assert(lines[0] == header());
    assert(lines.drop_first() =~= rows);
    let tagged = rows.map_values(|l: Seq<char>| parse_line_tagged(l));
    assert forall|i: int| 0 <= i < rs.len() implies tagged[i] == RowParseV::Parsed(rs[i]) by {
        assert(rows[i] == encode_row(rs[i]));
        lemma_row_round_trip(rs[i]);
    }
    assert(parse_file_spec(s) =~= rs.map_values(|r: RecordV| RowParseV::Parsed(r)));
}

/// Whether two character vectors hold the same characters.
fn chars_eq(a: &Vec<char>, b: &Vec<char>) -> (r: bool)
    ensures
        r == (a@ == b@),
{
    if a.len() != b.len() {
        return false;
    }
    let mut i: usize = 0;
    while i < a.len()
        invariant
            0 <= i <= a@.len(),
            a@.len() == b@.len(),
            forall|j: int| 0 <= j < i ==> a@[j] == b@[j],
        decreases a@.len() - i,
    {
        if a[i] != b[i] {
            return false;
        }
        i += 1;
    }
    proof {
        assert(a@ =~= b@);
    }
    true
}

/// Appends a record's encoded line to `out`.
fn push_row(out: &mut Vec<char>, r: &Record)
    ensures
        final(out)@ == old(out)@ + encode_row(r@),
{
    let subject = str_to_chars(r.subject_name.as_str());
    let training = str_to_chars(r.training_name.as_str());
    let due = str_to_chars(r.due_date.as_str());
    let status = str_to_chars(r.status.as_str());
    let created = str_to_chars(r.created_by.as_str());
    push_decimal(out, r.id);
    out.push(',');
    push_escaped(out, &subject);
    out.push(',');
    push_escaped(out, &training);
    out.push(',');
    push_escaped(out, &due);
    out.push(',');
    push_escaped(out, &status);
    out.push(',');
    push_escaped(out, &created);
    proof {
        lemma_join6(row_fields(r@), ',');
        assert(out@ =~= old(out)@ + encode_row(r@));
    }
}

/// The full durable-file contents for these records: the header line, then
/// one line per record, in order.
pub fn encode_records(records: &Vec<Record>) -> (r: String)
    ensures
        r@ == encode_file_spec(records@.map_values(|x: Record| x@)),
{
    let ghost rs = records@.map_values(|x: Record| x@);
    let ghost rows = rs.map_values(|x: RecordV| encode_row(x));
    let mut out = str_to_chars("id,subjectName,trainingName,dueDate,status,createdBy");
    proof {
        assert(out@ == header());
        assert(rows.take(0) =~= Seq::<Seq<char>>::empty());
        assert((seq![header()] + rows.take(0)) =~~= seq![header()]);
        assert(join_with(seq![header()], '\n') == header());
    }
    let mut i: usize = 0;
    while i < records.len()
        invariant
            0 <= i <= records@.len(),
            rs == records@.map_values(|x: Record| x@),
            rows == rs.map_values(|x: RecordV| encode_row(x)),
            rs.len() == records@.len(),
            rows.len() == records@.len(),
            out@ == join_with(seq![header()] + rows.take(i as int), '\n'),
        decreases records@.len() - i,
    {
        let ghost parts = seq![header()] + rows.take(i as int);
        out.push('\n');
        proof {
            assert(rs[i as int] == records@[i as int]@);
            assert(rows[i as int] == encode_row(records@[i as int]@));
        }
        push_row(&mut out, &records[i]);
        proof {
            lemma_join_snoc(parts, rows[i as int], '\n');
            assert(out@ =~= join_with(parts, '\n') + seq!['\n'] + rows[i as int]);
            assert(rows.take(i as int + 1) =~= rows.take(i as int).push(rows[i as int]));
            assert(seq![header()] + rows.take(i as int + 1) =~~= parts.push(rows[i as int]));
        }
        i += 1;
    }
    proof {
        assert(rows.take(records@.len() as int) =~= rows);
    }
    chars_to_string(&out)
}

/// Parses one line of the durable file.
fn parse_line(line: &Vec<char>) -> (r: RowParse)
    ensures
        r@ == parse_line_tagged(line@),
{
    let ghost sf = split_on(line@, ',');
    let fields = split_chars(line, ',');
    if fields.len() != 6 {
        return RowParse::Malformed(chars_to_string(line));
    }
    proof {
        assert(fields@[0]@ == sf[0]);
        assert(fields@[1]@ == sf[1]);
        assert(fields@[2]@ == sf[2]);
        assert(fields@[3]@ == sf[3]);
        assert(fields@[4]@ == sf[4]);
        assert(fields@[5]@ == sf[5]);
    }
    let id = match parse_decimal(&fields[0]) {
        Some(v) => v,
        None => {
            return RowParse::Malformed(chars_to_string(line));
        },
    };
    let subject = match unescape_segment(&fields[1]) {
        Some(v) => v,
        None => {
            return RowParse::Malformed(chars_to_string(line));
        },
    };
    let training = match unescape_segment(&fields[2]) {
        Some(v) => v,
        None => {
            return RowParse::Malformed(chars_to_string(line));
        },
    };
    let due = match unescape_segment(&fields[3]) {
        Some(v) => v,
        None => {
            return RowParse::Malformed(chars_to_string(line));
        },
    };
    let status = match unescape_segment(&fields[4]) {
        Some(v) => v,
        None => {
            return RowParse::Malformed(chars_to_string(line));
        },
    };
    let created = match unescape_segment(&fields[5]) {
        Some(v) => v,
        None => {
            return RowParse::Malformed(chars_to_string(line));
        },
    };
    let record = Record {
        id,
        subject_name: chars_to_string(&subject),
        training_name: chars_to_string(&training),
        due_date: chars_to_string(&due),
        status: chars_to_string(&status),
        created_by: chars_to_string(&created),
    };
    proof {
        assert(parse_row_spec(line@) == Some(record@));
    }
    RowParse::Parsed(record)
}

/// Parses the whole durable file into tagged rows, as [`parse_file_spec`]
/// describes: a malformed line is reported, not silently swallowed, and the
/// header line must match the fixed column order exactly.
pub fn parse_records(s: &str) -> (r: Vec<RowParse>)
    ensures
        r@.len() == parse_file_spec(s@).len(),
        forall|i: int| 0 <= i < r@.len() ==> r@[i]@ == parse_file_spec(s@)[i],
{
    let chars = str_to_chars(s);
    let mut out: Vec<RowParse> = Vec::new();
    if chars.len() == 0 {
        return out;
    }
    let ghost ls = split_on(s@, '\n');
    let lines = split_chars(&chars, '\n');
    proof {
        lemma_split_len(s@, '\n');
        assert(lines@[0]@ == ls[0]);
    }
    let hdr = str_to_chars("id,subjectName,trainingName,dueDate,status,createdBy");
    proof {
        assert(hdr@ == header());
    }
    if chars_eq(&lines[0], &hdr) {
        let ghost tagged = ls.drop_first().map_values(|l: Seq<char>| parse_line_tagged(l));
        let mut i: usize = 1;
        while i < lines.len()
            invariant
                1 <= i <= lines@.len(),
                lines@.len() == ls.len(),
                forall|j: int| 0 <= j < lines@.len() ==> lines@[j]@ == ls[j],
                tagged == ls.drop_first().map_values(|l: Seq<char>| parse_line_tagged(l)),
                out@.len() == i - 1,
                forall|k: int| 0 <= k < i - 1 ==> out@[k]@ == tagged[k],
            decreases lines@.len() - i,
        {
            proof {
                assert(ls.drop_first()[i - 1] == ls[i as int]);
            }
            out.push(parse_line(&lines[i]));
            i += 1;
        }
        proof {
            assert(parse_file_spec(s@) == tagged);
        }
        out
    } else {
        let ghost tagged = ls.map_values(|l: Seq<char>| RowParseV::Malformed(l));
        proof {
            assert(lines@[0]@ != header());
            assert(parse_file_spec(s@) == tagged);
        }
        let mut i: usize = 0;
        while i < lines.len()
            invariant
                0 <= i <= lines@.len(),
                lines@.len() == ls.len(),
                forall|j: int| 0 <= j < lines@.len() ==> lines@[j]@ == ls[j],
                tagged == ls.map_values(|l: Seq<char>| RowParseV::Malformed(l)),
                out@.len() == i,
                forall|k: int| 0 <= k < i ==> out@[k]@ == tagged[k],
            decreases lines@.len() - i,
        {
            out.push(RowParse::Malformed(chars_to_string(&lines[i])));
            i += 1;
        }
        out
    }
}

// ---------------------------------------------------------------------------
// Recovering a store from parsed rows.
// ---------------------------------------------------------------------------

/// The largest id among these records; zero when there are none.
pub open spec fn max_id(s: Seq<RecordV>) -> int
    decreases s.len(),
{
    if s.len() == 0 {
        0
    } else {
        let m = max_id(s.drop_last());
        if s.last().id as int > m {
            s.last().id as int
        } else {
            m
        }
    }
}

/// The records a load keeps, in file order: the well-parsed rows whose id
/// leaves headroom for the counter and repeats no earlier kept id. (A row of
/// the durable files this library writes is never skipped: see
/// [`lemma_kept_all`].)
pub open spec fn kept_rows(rows: Seq<RowParseV>) -> Seq<RecordV>
    decreases rows.len(),
{
    if rows.len() == 0 {
        Seq::empty()
    } else {
        let prefix = kept_rows(rows.drop_last());
        match rows.last() {
            RowParseV::Parsed(r) => if r.id < u32::MAX && !has_record_id(prefix, r.id) {
                prefix.push(r)
            } else {
                prefix
            },
            RowParseV::Malformed(_) => prefix,
        }
    }
}

/// Whether some record in `v` carries this id (executable form).
fn contains_id(v: &Vec<Record>, id: u32) -> (r: bool)
    ensures
        r == has_record_id(v@.map_values(|x: Record| x@), id),
{
    let ghost vs = v@.map_values(|x: Record| x@);
    let mut i: usize = 0;
    while i < v.len()
        invariant
            0 <= i <= v@.len(),
            vs == v@.map_values(|x: Record| x@),
            vs.len() == v@.len(),
            forall|j: int| 0 <= j < i ==> vs[j].id != id,
        decreases v@.len() - i,
    {
        proof {
            assert(vs[i as int] == v@[i as int]@);
        }
        if v[i].id == id {
            proof {
                assert(vs[i as int].id == id);
            }
            return true;
        }
        i += 1;
    }
    proof {
        if has_record_id(vs, id) {
            let w = choose|w: int| 0 <= w < vs.len() && vs[w].id == id;
            assert(vs[w].id != id);
        }
    }
    false
}

/// Builds a record store from the parsed rows of a durable file: keeps the
/// rows [`kept_rows`] describes and sets the id counter one past the largest
/// recovered id (to one on an empty recovery), so a recovered id is never
/// assigned again.
pub fn load_store(rows: &Vec<RowParse>) -> (r: RecordStore)
    ensures
        r@.records == kept_rows(rows@.map_values(|x: RowParse| x@)),
        r@.next_id as int == max_id(kept_rows(rows@.map_values(|x: RowParse| x@))) + 1,
        r.wf(),
{
    let ghost tv = rows@.map_values(|x: RowParse| x@);
    let mut kept: Vec<Record> = Vec::new();
    let mut maxid: u32 = 0;
    let mut i: usize = 0;
    proof {
        assert(tv.take(0) =~= Seq::<RowParseV>::empty());
        assert(kept@.map_values(|x: Record| x@) =~= kept_rows(tv.take(0)));
    }
    while i < rows.len()
        invariant
            0 <= i <= rows@.len(),
            tv == rows@.map_values(|x: RowParse| x@),
            tv.len() == rows@.len(),
            kept@.map_values(|x: Record| x@) == kept_rows(tv.take(i as int)),
            maxid as int == max_id(kept@.map_values(|x: Record| x@)),
            maxid < u32::MAX,
            forall|k: int|
                0 <= k < kept_rows(tv.take(i as int)).len() ==> #[trigger] kept_rows(
                    tv.take(i as int),
                )[k].id <= maxid,
        decreases rows@.len() - i,
    {
        let ghost prefix = kept@.map_values(|x: Record| x@);
        proof {
            assert(tv[i as int] == rows@[i as int]@);
            assert(tv.take(i as int + 1).drop_last() =~= tv.take(i as int));
            assert(tv.take(i as int + 1).last() == tv[i as int]);
        }
        match &rows[i] {
            RowParse::Parsed(rec) => {
                if rec.id < u32::MAX && !contains_id(&kept, rec.id) {
                    let ghost rv = rec@;
                    if rec.id > maxid {
                        maxid = rec.id;
                    }
                    kept.push(rec.clone());
                    proof {
                        assert(kept@.map_values(|x: Record| x@) =~= prefix.push(rv));
                        assert(kept_rows(tv.take(i as int + 1)) == prefix.push(rv));
                        assert(prefix.push(rv).drop_last() =~= prefix);
                    }
                } else {
                    proof {
                        assert(kept_rows(tv.take(i as int + 1)) == prefix);
                    }
                }
            },
            RowParse::Malformed(_) => {
                proof {
                    assert(kept_rows(tv.take(i as int + 1)) == prefix);
                }
            },
        }
        i += 1;
    }
    proof {
        assert(tv.take(rows@.len() as int) =~= tv);
        let ks = kept@.map_values(|x: Record| x@);
        assert forall|x: int, y: int| 0 <= x < y < ks.len() implies ks[x].id != ks[y].id by {
            lemma_kept_distinct(tv);
        }
    }
    RecordStore::restore(kept, maxid + 1)
}

/// The kept rows of any parse carry pairwise distinct ids: a repeated id is
/// skipped at load time.
pub proof fn lemma_kept_distinct(rows: Seq<RowParseV>)
    ensures
        forall|x: int, y: int|
            0 <= x < y < kept_rows(rows).len() ==> kept_rows(rows)[x].id != kept_rows(rows)[y].id,
    decreases rows.len(),
{
    if rows.len() == 0 {
    } else {
        lemma_kept_distinct(rows.drop_last());
        let prefix = kept_rows(rows.drop_last());
        let ks = kept_rows(rows);
        assert forall|x: int, y: int| 0 <= x < y < ks.len() implies ks[x].id != ks[y].id by {
            if y < prefix.len() {
                assert(ks[x] == prefix[x] && ks[y] == prefix[y]);
            } else if y == prefix.len() && ks.len() == prefix.len() + 1 {
                assert(ks[x] == prefix[x]);
                if ks[x].id == ks[y].id {
                    assert(has_record_id(prefix, ks[y].id));
                }
            }
        }
    }
}

/// A well-formed record sequence survives the load filter untouched: every
/// row parses to its record, no id lacks counter headroom, and no id repeats.
pub proof fn lemma_kept_all(rs: Seq<RecordV>, next_id: u32)
    requires
        wf_records(rs, next_id),
    ensures
        kept_rows(rs.map_values(|r: RecordV| RowParseV::Parsed(r))) == rs,
    decreases rs.len(),
{
    let m = rs.map_values(|r: RecordV| RowParseV::Parsed(r));
    if rs.len() == 0 {
        assert(kept_rows(m) =~= rs);
    } else {
        let prefix = rs.drop_last();
        assert(forall|i: int| 0 <= i < prefix.len() ==> prefix[i] == rs[i]);
        assert(wf_records(prefix, next_id));
        lemma_kept_all(prefix, next_id);
        assert(m.drop_last() =~= prefix.map_values(|r: RecordV| RowParseV::Parsed(r)));
        assert(m.last() == RowParseV::Parsed(rs.last()));
        let last = rs.last();
        assert(last.id < next_id);
        if has_record_id(prefix, last.id) {
            let w = choose|w: int| 0 <= w < prefix.len() && prefix[w].id == last.id;
            assert(rs[w].id == rs[rs.len() - 1].id);
            assert(false);
        }
        assert(kept_rows(m) == prefix.push(last));
        assert(prefix.push(last) =~= rs);
    }
}

/// The persistence round trip: encoding a well-formed store's records and
/// loading the result recovers exactly those records, field for field, in
/// the same order.
pub proof fn lemma_persist_round_trip(rs: Seq<RecordV>, next_id: u32)
    requires
        wf_records(rs, next_id),
    ensures
        kept_rows(parse_file_spec(encode_file_spec(rs))) == rs,
{
    lemma_file_round_trip(rs);
    lemma_kept_all(rs, next_id);
}

} // verus!


