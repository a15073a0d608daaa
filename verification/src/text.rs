//! Character-level building blocks: ASCII case folding, decimal numbers, and
//! joining and splitting on a separator.
use vstd::prelude::*;
use vstd::utf8::*;

verus! {

broadcast use vstd::string::group_string_axioms;

/// `String::push` appends one character to the end of the string and leaves
/// what was there before unchanged.
pub assume_specification[ String::push ](s: &mut String, c: char)
    ensures
        final(s)@ == old(s)@.push(c),
;

/// The lower-case form of an ASCII letter; any other character is itself.
pub open spec fn ascii_lower(c: char) -> char {
    if 'A' <= c && c <= 'Z' {
        ((c as u32) + 32) as char
    } else {
        c
    }
}

/// A string with its ASCII letters in lower case.
pub open spec fn ascii_lowercase_of(s: Seq<char>) -> Seq<char> {
    s.map_values(|c: char| ascii_lower(c))
}

/// Whether two strings are equal up to the case of ASCII letters.
pub open spec fn same_ignoring_case(a: Seq<char>, b: Seq<char>) -> bool {
    ascii_lowercase_of(a) == ascii_lowercase_of(b)
}

fn lower_char(c: char) -> (r: char)
    ensures
        r == ascii_lower(c),
{
    if 'A' <= c && c <= 'Z' {
        ((c as u8) + 32u8) as char
    } else {
        c
    }
}

/// The characters of `s`, in order.
pub(crate) fn chars_of(s: &str) -> (r: Vec<char>)
    ensures
        r@ == s@,
{
    let mut out: Vec<char> = Vec::new();
    for c in it: s.chars()
        invariant
            it.seq() == s@,
            out@ == s@.take(it.index() as int),
    {
        out.push(c);
        assert(s@.take(it.index() + 1) == s@.take(it.index() as int).push(c));
    }
    assert(s@.take(s@.len() as int) == s@);
    out
}

/// Whether `a` and `b` are equal up to the case of ASCII letters.
pub(crate) fn eq_ignore_ascii_case(a: &str, b: &str) -> (r: bool)
    ensures
        r == same_ignoring_case(a@, b@),
{
    let x = chars_of(a);
    let y = chars_of(b);
    if x.len() != y.len() {
        assert(ascii_lowercase_of(a@).len() != ascii_lowercase_of(b@).len());
        return false;
    }
    let mut i: usize = 0;
    while i < x.len()
        invariant
            x@ == a@,
            y@ == b@,
            x@.len() == y@.len(),
            i <= x@.len(),
            forall|j: int| 0 <= j < i ==> ascii_lower(a@[j]) == ascii_lower(b@[j]),
        decreases x@.len() - i,
    {
        if lower_char(x[i]) != lower_char(y[i]) {
            assert(ascii_lowercase_of(a@)[i as int] != ascii_lowercase_of(b@)[i as int]);
            return false;
        }
        i += 1;
    }
    assert(ascii_lowercase_of(a@) =~= ascii_lowercase_of(b@));
    true
}

/// Two texts are the same up to case exactly if they are equally long and have, at
/// every place, the same character or the two cases of one ASCII letter. Length,
/// position and all other characters always count.
pub proof fn case_is_ignored_in_ascii_letters_only(a: Seq<char>, b: Seq<char>)
    ensures
        same_ignoring_case(a, b) <==> a.len() == b.len() && (forall|i: int|
            0 <= i < a.len() ==> {
                ||| #[trigger] a[i] == b[i]
                ||| 65 <= a[i] as u32 <= 90 && b[i] as u32 == a[i] as u32 + 32
                ||| 65 <= b[i] as u32 <= 90 && a[i] as u32 == b[i] as u32 + 32
            }),
        same_ignoring_case(a, a),
        same_ignoring_case(a, b) <==> same_ignoring_case(b, a),
{
    let x = ascii_lowercase_of(a);
    let y = ascii_lowercase_of(b);
    if same_ignoring_case(a, b) {
        assert(x.len() == a.len() && y.len() == b.len());
        assert forall|i: int| 0 <= i < a.len() implies {
            ||| #[trigger] a[i] == b[i]
            ||| 65 <= a[i] as u32 <= 90 && b[i] as u32 == a[i] as u32 + 32
            ||| 65 <= b[i] as u32 <= 90 && a[i] as u32 == b[i] as u32 + 32
        } by {
            assert(x[i] == ascii_lower(a[i]));
            assert(y[i] == ascii_lower(b[i]));
        }
    }
    if a.len() == b.len() && (forall|i: int|
        0 <= i < a.len() ==> {
            ||| #[trigger] a[i] == b[i]
            ||| 65 <= a[i] as u32 <= 90 && b[i] as u32 == a[i] as u32 + 32
            ||| 65 <= b[i] as u32 <= 90 && a[i] as u32 == b[i] as u32 + 32
        }) {
        assert forall|i: int| 0 <= i < x.len() implies x[i] == y[i] by {
            assert(a[i] == a[i]);
        }
        assert(x =~= y);
    }
}

/// The decimal digit of `d`.
pub open spec fn digit(d: nat) -> char
    recommends
        d < 10,
{
    (48 + d) as char
}

/// A number in decimal, without leading zeros.
pub open spec fn decimal(n: nat) -> Seq<char>
    decreases n,
{
    if n < 10 {
        seq![digit(n)]
    } else {
        decimal(n / 10).push(digit(n % 10))
    }
}

/// The number that a text of digits stands for.
pub open spec fn digits_value(digits: Seq<char>) -> int
    decreases digits.len(),
{
    if digits.len() == 0 {
        0
    } else {
        digits_value(digits.drop_last()) * 10 + (digits.last() as u32 - 48)
    }
}

/// A number in decimal reads back: it is made of ASCII digits, their value is the
/// number, and it has no leading zero unless it is the one digit of zero.
pub proof fn decimal_reads_back(n: nat)
    ensures
        decimal(n).len() > 0,
        forall|i: int| 0 <= i < decimal(n).len() ==> 48 <= (#[trigger] decimal(n)[i]) as u32 <= 57,
        digits_value(decimal(n)) == n,
        decimal(n)[0] == '0' <==> n == 0,
        n == 0 ==> decimal(n).len() == 1,
    decreases n,
{
    let s = decimal(n);
    if n < 10 {
        assert(s.drop_last().len() == 0);
        assert(digits_value(s.drop_last()) == 0);
    } else {
        decimal_reads_back(n / 10);
        assert(s.drop_last() =~= decimal(n / 10));
        assert(s[0] == decimal(n / 10)[0]);
        assert forall|i: int| 0 <= i < s.len() implies 48 <= (#[trigger] s[i]) as u32 <= 57 by {
            if i < s.len() - 1 {
                assert(s[i] == decimal(n / 10)[i]);
            }
        }
    }
}

/// A digit more at the end of a number is a digit more at the end of its text.
pub proof fn decimal_grows_by_digits(n: nat, d: nat)
    requires
        d < 10,
    ensures
        decimal(d) == seq![(48 + d) as char],
        n > 0 ==> decimal(10 * n + d) == decimal(n).push((48 + d) as char),
{
    assert((10 * n + d) / 10 == n);
    assert((10 * n + d) % 10 == d);
}

/// Different numbers have different texts.
pub proof fn decimals_differ(a: nat, b: nat)
    requires
        decimal(a) == decimal(b),
    ensures
        a == b,
{
    decimal_reads_back(a);
    decimal_reads_back(b);
}

/// Appends `n` in decimal.
pub(crate) fn push_decimal(out: &mut String, n: u32)
    ensures
        final(out)@ == old(out)@ + decimal(n as nat),
    decreases n,
{
    if n >= 10 {
        push_decimal(out, n / 10);
    }
    let d: u8 = (n % 10) as u8;
    out.push((48u8 + d) as char);
}

/// The number of bytes that a character takes in UTF-8.
pub open spec fn utf8_width(c: char) -> nat {
    encode_scalar(c as u32).len()
}

/// A character is as wide as its encoding is long.
pub proof fn width_is_the_length_of_the_encoding(c: char)
    ensures
        utf8_width(c) == encode_utf8(seq![c]).len(),
        1 <= utf8_width(c) <= 4,
{
    let one = seq![c];
    assert(one.drop_first().len() == 0);
    assert(encode_utf8(one) == encode_scalar(c as u32) + encode_utf8(one.drop_first()));
}

/// The number of bytes that `c` takes in UTF-8.
pub(crate) fn char_width(c: char) -> (r: usize)
    ensures
        r == utf8_width(c),
        1 <= r <= 4,
{
    let u: u32 = c as u32;
    if u < 0x80 {
        1
    } else if u < 0x800 {
        2
    } else if u < 0x10000 {
        3
    } else {
        4
    }
}

/// The parts joined with one `sep` between neighbours.
pub open spec fn join_on(parts: Seq<Seq<char>>, sep: char) -> Seq<char>
    decreases parts.len(),
{
    if parts.len() == 0 {
        seq![]
    } else if parts.len() == 1 {
        parts[0]
    } else {
        join_on(parts.drop_last(), sep).push(sep) + parts.last()
    }
}

/// Joining one part more.
pub(crate) proof fn lemma_join_push(parts: Seq<Seq<char>>, part: Seq<char>, sep: char)
    requires
        parts.len() > 0,
    ensures
        join_on(parts.push(part), sep) == join_on(parts, sep).push(sep) + part,
{
    assert(parts.push(part).drop_last() == parts);
}

/// The parts of `s` between the occurrences of `sep`; always at least one.
pub open spec fn split_on(s: Seq<char>, sep: char) -> Seq<Seq<char>>
    decreases s.len(),
{
    if s.len() == 0 {
        seq![seq![]]
    } else {
        let front = split_on(s.drop_last(), sep);
        if s.last() == sep {
            front.push(seq![])
        } else {
            front.drop_last().push(front.last().push(s.last()))
        }
    }
}

/// Appending text that holds no separator extends the last part.
pub(crate) proof fn lemma_split_extends_last(s: Seq<char>, tail: Seq<char>, sep: char)
    requires
        !tail.contains(sep),
    ensures
        split_on(s, sep).len() > 0,
        split_on(s + tail, sep) == split_on(s, sep).drop_last().push(
            split_on(s, sep).last() + tail,
        ),
    decreases s.len() + tail.len(),
{
    if tail.len() == 0 {
        if s.len() > 0 {
            lemma_split_extends_last(s.drop_last(), seq![], sep);
        }
        assert(s + tail == s);
        assert(split_on(s, sep).last() + tail == split_on(s, sep).last());
        assert(split_on(s, sep) == split_on(s, sep).drop_last().push(split_on(s, sep).last()));
    } else {
        let front = tail.drop_last();
        assert(tail.contains(tail.last()));
        assert(!front.contains(sep)) by {
            if front.contains(sep) {
                let i = choose|i: int| 0 <= i < front.len() && front[i] == sep;
                assert(tail[i] == sep);
            }
        }
        lemma_split_extends_last(s, front, sep);
        assert((s + tail).drop_last() == s + front);
        assert((s + tail).last() == tail.last());
        let part = split_on(s, sep).last();
        assert((part + front).push(tail.last()) == part + tail);
        assert(split_on(s + tail, sep) =~= split_on(s, sep).drop_last().push(part + tail));
    }
}

/// Splitting undoes joining, for parts that do not hold the separator.
pub proof fn lemma_split_of_join(parts: Seq<Seq<char>>, sep: char)
    requires
        parts.len() > 0,
        forall|i: int| 0 <= i < parts.len() ==> !(#[trigger] parts[i]).contains(sep),
    ensures
        split_on(join_on(parts, sep), sep) == parts,
    decreases parts.len(),
{
    let none: Seq<char> = seq![];
    if parts.len() == 1 {
        lemma_split_extends_last(none, parts[0], sep);
        assert(none + parts[0] == parts[0]);
        assert(split_on(parts[0], sep) =~= parts);
    } else {
        let front = parts.drop_last();
        assert forall|i: int| 0 <= i < front.len() implies !(#[trigger] front[i]).contains(sep) by {
            assert(front[i] == parts[i]);
        }
        lemma_split_of_join(front, sep);
        let head = join_on(front, sep).push(sep);
        assert(head.drop_last() == join_on(front, sep));
        assert(split_on(head, sep) == front.push(none));
        lemma_split_extends_last(head, parts.last(), sep);
        assert(none + parts.last() == parts.last());
        assert(split_on(head, sep).drop_last() == front);
        assert(split_on(head + parts.last(), sep) =~= parts);
    }
}

/// Joining adds one separator between neighbours and nothing else.
pub proof fn joining_puts_one_separator_between(
    parts: Seq<Seq<char>>,
    part: Seq<char>,
    sep: char,
)
    ensures
        join_on(Seq::<Seq<char>>::empty(), sep) == Seq::<char>::empty(),
        join_on(seq![part], sep) == part,
        parts.len() > 0 ==> join_on(parts.push(part), sep) == join_on(parts, sep) + seq![sep] + part,
{
    if parts.len() > 0 {
        lemma_join_push(parts, part, sep);
        assert(join_on(parts, sep).push(sep) == join_on(parts, sep) + seq![sep]);
    }
}

/// Joining undoes splitting, and no part holds the separator.
pub proof fn joining_undoes_splitting(s: Seq<char>, sep: char)
    ensures
        split_on(s, sep).len() > 0,
        join_on(split_on(s, sep), sep) == s,
        forall|i: int| 0 <= i < split_on(s, sep).len() ==> !(#[trigger] split_on(s, sep)[i]).contains(
            sep,
        ),
    decreases s.len(),
{
    let none: Seq<char> = seq![];
    let parts = split_on(s, sep);
    if s.len() == 0 {
        assert(parts == seq![none]);
        assert(join_on(parts, sep) =~= s);
    } else {
        let front = split_on(s.drop_last(), sep);
        joining_undoes_splitting(s.drop_last(), sep);
        if s.last() == sep {
            lemma_join_push(front, none, sep);
            assert(join_on(parts, sep) =~= s);
            assert forall|i: int| 0 <= i < parts.len() implies !(#[trigger] parts[i]).contains(
                sep,
            ) by {
                if i < front.len() {
                    assert(parts[i] == front[i]);
                }
            }
        } else {
            let rest = front.drop_last();
            let grown = front.last().push(s.last());
            assert(front == rest.push(front.last()));
            assert(parts == rest.push(grown));
            if rest.len() > 0 {
                lemma_join_push(rest, front.last(), sep);
                lemma_join_push(rest, grown, sep);
            }
            assert(join_on(parts, sep) =~= join_on(front, sep).push(s.last()));
            assert(join_on(parts, sep) =~= s);
            assert forall|i: int| 0 <= i < parts.len() implies !(#[trigger] parts[i]).contains(
                sep,
            ) by {
                if i < rest.len() {
                    assert(parts[i] == front[i]);
                } else {
                    assert(!front[front.len() - 1].contains(sep));
                    if grown.contains(sep) {
                        let k = choose|k: int| 0 <= k < grown.len() && grown[k] == sep;
                        assert(front.last()[k] == sep);
                    }
                }
            }
        }
    }
}

/// A character other than the separator occurs in the joined text only if it
/// occurs in a part.
pub(crate) proof fn lemma_join_holds_only(parts: Seq<Seq<char>>, sep: char, c: char)
    requires
        c != sep,
        forall|i: int| 0 <= i < parts.len() ==> !(#[trigger] parts[i]).contains(c),
    ensures
        !join_on(parts, sep).contains(c),
    decreases parts.len(),
{
    if parts.len() > 1 {
        let front = parts.drop_last();
        assert forall|i: int| 0 <= i < front.len() implies !(#[trigger] front[i]).contains(c) by {
            assert(front[i] == parts[i]);
        }
        lemma_join_holds_only(front, sep, c);
        let head = join_on(front, sep);
        let joined = head.push(sep) + parts.last();
        if joined.contains(c) {
            let i = choose|i: int| 0 <= i < joined.len() && joined[i] == c;
            if i < head.len() {
                assert(head[i] == c);
            } else if i > head.len() {
                assert(parts[parts.len() - 1][i - head.len() - 1] == c);
            }
        }
    }
}

/// UTF-8 encodes a concatenation part by part.
pub(crate) proof fn lemma_encode_concat(a: Seq<char>, b: Seq<char>)
    ensures
        encode_utf8(a + b) == encode_utf8(a) + encode_utf8(b),
    decreases a.len(),
{
    if a.len() == 0 {
        assert(a + b == b);
        assert(encode_utf8(a) + encode_utf8(b) == encode_utf8(b));
    } else {
        lemma_encode_concat(a.drop_first(), b);
        assert((a + b).drop_first() == a.drop_first() + b);
        assert(encode_utf8(a + b) =~= encode_utf8(a) + encode_utf8(b));
    }
}

} // verus!
