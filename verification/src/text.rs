use vstd::prelude::*;

verus! {

pub const LF: u8 = 10;

pub const CR: u8 = 13;

pub const AMPERSAND: u8 = 38;

pub const COMMA: u8 = 44;

pub const HYPHEN: u8 = 45;

pub const SLASH: u8 = 47;

pub const COLON: u8 = 58;

pub const EQUALS: u8 = 61;

pub const QUESTION: u8 = 63;

pub const OPEN_BRACE: u8 = 123;

pub const CLOSE_BRACE: u8 = 125;

/// Whether `i` is the first position of `s` at which `f` holds, or the
/// length of `s` where it holds nowhere.
pub open spec fn is_first_at<T>(s: Seq<T>, f: spec_fn(Seq<T>, int) -> bool, i: int) -> bool {
    &&& 0 <= i <= s.len()
    &&& forall|j: int| 0 <= j < i ==> !#[trigger] f(s, j)
    &&& (i < s.len() ==> f(s, i))
}

/// The first position of `s` at which `f` holds, or the length of `s`.
pub open spec fn first_at<T>(s: Seq<T>, f: spec_fn(Seq<T>, int) -> bool) -> int {
    choose|i: int| is_first_at(s, f, i)
}

/// There is one first position.
pub proof fn lemma_first_at<T>(s: Seq<T>, f: spec_fn(Seq<T>, int) -> bool, i: int)
    requires
        is_first_at(s, f, i),
    ensures
        first_at(s, f) == i,
{
    let k = first_at(s, f);
    assert(is_first_at(s, f, k));
    if k < i {
        assert(!f(s, k));
    } else if i < k {
        assert(!f(s, i));
    }
}

/// Holds at the positions of the byte `b`.
pub open spec fn at_byte(b: u8) -> spec_fn(Seq<u8>, int) -> bool {
    |t: Seq<u8>, j: int| t[j] == b
}

/// Holds at the positions of white space.
pub open spec fn at_space() -> spec_fn(Seq<u8>, int) -> bool {
    |t: Seq<u8>, j: int| is_space(t[j])
}

/// Holds where two line feeds stand in a row.
pub open spec fn at_blank() -> spec_fn(Seq<u8>, int) -> bool {
    |t: Seq<u8>, j: int| j + 1 < t.len() && t[j] == LF && t[j + 1] == LF
}

/// The first position of the byte `b` in `s`, or the length of `s`.
pub open spec fn first_index(s: Seq<u8>, b: u8) -> int {
    first_at(s, at_byte(b))
}

/// ASCII white space: the space and the bytes 9 to 13.
pub open spec fn is_space(b: u8) -> bool {
    b == 32 || (9 <= b && b <= 13)
}

/// The first position of white space in `s`, or the length of `s`.
pub open spec fn first_space(s: Seq<u8>) -> int {
    first_at(s, at_space())
}

/// The first position at which an empty line ends a line: two line feeds in
/// a row. The length of `s` where there is none.
pub open spec fn first_blank(s: Seq<u8>) -> int {
    first_at(s, at_blank())
}

/// What stands before the first `b`; all of `s` where there is none.
pub open spec fn before(s: Seq<u8>, b: u8) -> Seq<u8> {
    s.take(first_index(s, b))
}

/// What stands after the first `b`; nothing where there is none.
pub open spec fn after(s: Seq<u8>, b: u8) -> Seq<u8> {
    if first_index(s, b) < s.len() {
        s.skip(first_index(s, b) + 1)
    } else {
        Seq::empty()
    }
}

/// The pieces between the occurrences of `b`: one more than there are
/// occurrences, empty pieces included.
pub open spec fn split(s: Seq<u8>, b: u8) -> Seq<Seq<u8>>
    decreases s.len(),
{
    if s.len() == 0 {
        seq![Seq::empty()]
    } else {
        let pieces = split(s.drop_last(), b);
        if s.last() == b {
            pieces.push(Seq::empty())
        } else {
            pieces.drop_last().push(pieces.last().push(s.last()))
        }
    }
}

/// `s` without the bytes equal to `b`.
pub open spec fn without(s: Seq<u8>, b: u8) -> Seq<u8>
    decreases s.len(),
{
    if s.len() == 0 {
        s
    } else if s.last() == b {
        without(s.drop_last(), b)
    } else {
        without(s.drop_last(), b).push(s.last())
    }
}

/// `s` without the white space it starts with.
pub open spec fn trim_start(s: Seq<u8>) -> Seq<u8>
    decreases s.len(),
{
    if s.len() > 0 && is_space(s[0]) {
        trim_start(s.skip(1))
    } else {
        s
    }
}

/// `s` without the white space it ends with.
pub open spec fn trim_end(s: Seq<u8>) -> Seq<u8>
    decreases s.len(),
{
    if s.len() > 0 && is_space(s.last()) {
        trim_end(s.drop_last())
    } else {
        s
    }
}

/// `s` without white space at either end.
pub open spec fn trim(s: Seq<u8>) -> Seq<u8> {
    trim_end(trim_start(s))
}

/// The lower-case form of an ASCII letter; any other byte as it is.
pub open spec fn lower_byte(b: u8) -> u8 {
    if 65 <= b && b <= 90 {
        (b + 32) as u8
    } else {
        b
    }
}

/// `s` with its ASCII letters in lower case.
pub open spec fn lower(s: Seq<u8>) -> Seq<u8> {
    s.map_values(|b: u8| lower_byte(b))
}

/// `n` in decimal digits, without leading zeros.
pub open spec fn decimal(n: nat) -> Seq<u8>
    decreases n,
{
    if n < 10 {
        seq![(48 + n) as u8]
    } else {
        decimal(n / 10).push((48 + n % 10) as u8)
    }
}

/// Whether every byte of `s` is a decimal digit.
pub open spec fn all_digits(s: Seq<u8>) -> bool {
    forall|i: int| 0 <= i < s.len() ==> 48 <= #[trigger] s[i] <= 57
}

/// The number that the digits of `s` spell.
pub open spec fn decimal_value(s: Seq<u8>) -> nat
    decreases s.len(),
{
    if s.len() == 0 {
        0
    } else {
        decimal_value(s.drop_last()) * 10 + (s.last() - 48) as nat
    }
}

/// The number that `s` spells: `s` is one or more decimal digits and the
/// number fits the machine's word.
pub open spec fn parse_number(s: Seq<u8>) -> Option<usize> {
    if s.len() > 0 && all_digits(s) && decimal_value(s) <= usize::MAX {
        Some(decimal_value(s) as usize)
    } else {
        None
    }
}

/// The digits of a prefix spell no more than all the digits.
pub proof fn lemma_decimal_value_prefix(s: Seq<u8>, i: int)
    requires
        all_digits(s),
        0 <= i <= s.len(),
    ensures
        decimal_value(s.take(i)) <= decimal_value(s),
    decreases s.len(),
{
    if i == s.len() {
        assert(s.take(i) =~= s);
    } else {
        assert(all_digits(s.drop_last()));
        lemma_decimal_value_prefix(s.drop_last(), i);
        assert(s.drop_last().take(i) =~= s.take(i));
    }
}

/// The digits of a number spell that number.
pub proof fn lemma_decimal_roundtrip(n: nat)
    ensures
        all_digits(decimal(n)),
        decimal(n).len() > 0,
        decimal_value(decimal(n)) == n,
    decreases n,
{
    if n < 10 {
        let d = decimal(n);
        assert(d.drop_last() =~= Seq::<u8>::empty());
        reveal_with_fuel(decimal_value, 2);
    } else {
        lemma_decimal_roundtrip(n / 10);
        let d = decimal(n);
        assert(d.drop_last() =~= decimal(n / 10));
    }
}

/// The first position of `b` in `s`.
pub fn find_byte(s: &[u8], b: u8) -> (i: usize)
    ensures
        i == first_index(s@, b),
        i <= s@.len(),
        i < s@.len() ==> s@[i as int] == b,
{
    let mut i: usize = 0;
    while i < s.len() && s[i] != b
        invariant
            i <= s@.len(),
            forall|j: int| 0 <= j < i ==> s@[j] != b,
        decreases s@.len() - i,
    {
        i += 1;
    }
    proof {
        lemma_first_at(s@, at_byte(b), i as int);
    }
    i
}

/// Whether `b` is ASCII white space.
pub fn is_space_byte(b: u8) -> (r: bool)
    ensures
        r == is_space(b),
{
    b == 32 || (9 <= b && b <= 13)
}

/// The first position of white space in `s`.
pub fn find_space(s: &[u8]) -> (i: usize)
    ensures
        i == first_space(s@),
        i <= s@.len(),
{
    let mut i: usize = 0;
    while i < s.len() && !is_space_byte(s[i])
        invariant
            i <= s@.len(),
            forall|j: int| 0 <= j < i ==> !is_space(#[trigger] s@[j]),
        decreases s@.len() - i,
    {
        i += 1;
    }
    proof {
        lemma_first_at(s@, at_space(), i as int);
    }
    i
}

/// The first position of two line feeds in a row.
pub fn find_blank(s: &[u8]) -> (i: usize)
    ensures
        i == first_blank(s@),
        i <= s@.len(),
        i < s@.len() ==> i + 1 < s@.len(),
{
    let mut i: usize = 0;
    while i < s.len() && !(s.len() - i > 1 && s[i] == LF && s[i + 1] == LF)
        invariant
            i <= s@.len(),
            forall|j: int| 0 <= j < i ==> !(j + 1 < s@.len() && #[trigger] s@[j] == LF && s@[j + 1] == LF),
        decreases s@.len() - i,
    {
        i += 1;
    }
    proof {
        lemma_first_at(s@, at_blank(), i as int);
    }
    i
}

/// The bytes of each piece.
pub open spec fn pieces_view(pieces: Seq<Vec<u8>>) -> Seq<Seq<u8>> {
    pieces.map_values(|p: Vec<u8>| p@)
}

/// Computes [`split`].
pub fn split_bytes(s: &[u8], b: u8) -> (pieces: Vec<Vec<u8>>)
    ensures
        pieces_view(pieces@) == split(s@, b),
        pieces@.len() >= 1,
{
    let mut pieces: Vec<Vec<u8>> = Vec::new();
    let mut current: Vec<u8> = Vec::new();
    let mut i: usize = 0;
    proof {
        assert(s@.take(0) =~= Seq::<u8>::empty());
        assert(pieces_view(pieces@).push(current@) =~= seq![Seq::<u8>::empty()]);
    }
    while i < s.len()
        invariant
            i <= s@.len(),
            split(s@.take(i as int), b) == pieces_view(pieces@).push(current@),
        decreases s@.len() - i,
    {
        let ghost done = pieces_view(pieces@).push(current@);
        proof {
            assert(s@.take(i + 1).drop_last() =~= s@.take(i as int));
            assert(done.drop_last() =~= pieces_view(pieces@));
        }
        if s[i] == b {
            pieces.push(current);
            current = Vec::new();
            proof {
                assert(pieces_view(pieces@).push(current@) =~= done.push(Seq::empty()));
            }
        } else {
            current.push(s[i]);
            proof {
                assert(pieces_view(pieces@).push(current@) =~= done.drop_last().push(
                    done.last().push(s@[i as int]),
                ));
            }
        }
        i += 1;
    }
    proof {
        assert(s@.take(i as int) =~= s@);
        assert(pieces_view(pieces@.push(current)) =~= pieces_view(pieces@).push(current@));
    }
    pieces.push(current);
    pieces
}

/// Computes [`without`].
pub fn without_byte(s: &[u8], b: u8) -> (out: Vec<u8>)
    ensures
        out@ == without(s@, b),
{
    let mut out: Vec<u8> = Vec::new();
    let mut i: usize = 0;
    proof {
        assert(s@.take(0) =~= Seq::<u8>::empty());
    }
    while i < s.len()
        invariant
            i <= s@.len(),
            out@ == without(s@.take(i as int), b),
        decreases s@.len() - i,
    {
        proof {
            assert(s@.take(i + 1).drop_last() =~= s@.take(i as int));
        }
        if s[i] != b {
            out.push(s[i]);
        }
        i += 1;
    }
    proof {
        assert(s@.take(i as int) =~= s@);
    }
    out
}

/// Computes [`trim`].
pub fn trim_bytes(s: &[u8]) -> (out: Vec<u8>)
    ensures
        out@ == trim(s@),
{
    let mut start: usize = 0;
    proof {
        assert(s@.skip(0) =~= s@);
    }
    while start < s.len() && is_space_byte(s[start])
        invariant
            start <= s@.len(),
            trim_start(s@) == trim_start(s@.skip(start as int)),
        decreases s@.len() - start,
    {
        proof {
            assert(s@.skip(start as int).skip(1) =~= s@.skip(start + 1));
        }
        start += 1;
    }
    let ghost rest = s@.skip(start as int);
    let mut end: usize = s.len();
    proof {
        assert(rest.take(rest.len() as int) =~= rest);
    }
    while end > start && is_space_byte(s[end - 1])
        invariant
            start <= end <= s@.len(),
            rest == s@.skip(start as int),
            trim_end(rest) == trim_end(rest.take(end - start)),
        decreases end,
    {
        proof {
            assert(rest.take(end - start).drop_last() =~= rest.take(end - start - 1));
        }
        end -= 1;
    }
    let out = vstd::slice::slice_to_vec(vstd::slice::slice_subrange(s, start, end));
    proof {
        assert(s@.subrange(start as int, end as int) =~= rest.take(end - start));
    }
    out
}

/// Computes [`lower`].
pub fn lower_bytes(s: &[u8]) -> (out: Vec<u8>)
    ensures
        out@ == lower(s@),
{
    let mut out: Vec<u8> = Vec::new();
    let mut i: usize = 0;
    while i < s.len()
        invariant
            i <= s@.len(),
            out@ == lower(s@.take(i as int)),
        decreases s@.len() - i,
    {
        let b: u8 = s[i];
        let l: u8 = if 65 <= b && b <= 90 {
            b + 32
        } else {
            b
        };
        out.push(l);
        i += 1;
        proof {
            assert(out@ =~= lower(s@.take(i as int)));
        }
    }
    proof {
        assert(s@.take(i as int) =~= s@);
    }
    out
}

/// Computes [`decimal`].
pub fn decimal_bytes(n: usize) -> (out: Vec<u8>)
    ensures
        out@ == decimal(n as nat),
    decreases n,
{
    if n < 10 {
        let mut out: Vec<u8> = Vec::new();
        out.push((48 + n) as u8);
        proof {
            assert(out@ =~= decimal(n as nat));
        }
        out
    } else {
        let mut out = decimal_bytes(n / 10);
        out.push((48 + n % 10) as u8);
        out
    }
}

/// Computes [`parse_number`].
pub fn parse_number_bytes(s: &[u8]) -> (r: Option<usize>)
    ensures
        r == parse_number(s@),
{
    if s.len() == 0 {
        return None;
    }
    let mut acc: usize = 0;
    let mut i: usize = 0;
    while i < s.len()
        invariant
            i <= s@.len(),
            all_digits(s@.take(i as int)),
            acc == decimal_value(s@.take(i as int)),
        decreases s@.len() - i,
    {
        let b: u8 = s[i];
        proof {
            assert(s@.take(i + 1).drop_last() =~= s@.take(i as int));
        }
        if b < 48 || b > 57 {
            proof {
                assert(!(48 <= s@[i as int] <= 57));
            }
            return None;
        }
        let d: usize = (b - 48) as usize;
        proof {
            assert forall|j: int| 0 <= j < i + 1 implies 48 <= #[trigger] s@.take(i + 1)[j] <= 57 by {
                if j < i {
                    assert(s@.take(i as int)[j] == s@.take(i + 1)[j]);
                }
            }
        }
        if acc > (usize::MAX - d) / 10 {
            proof {
                if all_digits(s@) {
                    lemma_decimal_value_prefix(s@, i + 1);
                }
            }
            return None;
        }
        acc = acc * 10 + d;
        i += 1;
    }
    proof {
        assert(s@.take(i as int) =~= s@);
    }
    Some(acc)
}

} // verus!

verus! {

/// A first position, counted up from the start: every sequence has one.
pub proof fn witness_first<T>(s: Seq<T>, f: spec_fn(Seq<T>, int) -> bool) -> (i: int)
    ensures
        is_first_at(s, f, i),
        first_at(s, f) == i,
{
    let i = first_from(s, f, 0);
    lemma_first_at(s, f, i);
    i
}

proof fn first_from<T>(s: Seq<T>, f: spec_fn(Seq<T>, int) -> bool, k: int) -> (i: int)
    requires
        0 <= k <= s.len(),
        forall|j: int| 0 <= j < k ==> !#[trigger] f(s, j),
    ensures
        is_first_at(s, f, i),
    decreases s.len() - k,
{
    if k < s.len() && !f(s, k) {
        first_from(s, f, k + 1)
    } else {
        k
    }
}

/// The first position is a position of the sequence or its length, and
/// nothing before it meets the condition.
pub proof fn lemma_first_at_is_first<T>(s: Seq<T>, f: spec_fn(Seq<T>, int) -> bool)
    ensures
        is_first_at(s, f, first_at(s, f)),
{
    let i = witness_first(s, f);
}

} // verus!

verus! {

/// What does not hold the byte is one piece.
pub proof fn lemma_split_none(s: Seq<u8>, b: u8)
    requires
        forall|i: int| 0 <= i < s.len() ==> s[i] != b,
    ensures
        split(s, b) == seq![s],
    decreases s.len(),
{
    if s.len() == 0 {
        assert(s =~= Seq::<u8>::empty());
    } else {
        lemma_split_none(s.drop_last(), b);
        let pieces = seq![s.drop_last()];
        assert(pieces.drop_last().push(pieces.last().push(s.last())) =~= seq![s]) by {
            assert(s.drop_last().push(s.last()) =~= s);
        }
    }
}

/// What follows the last occurrence of the byte is the last piece.
pub proof fn lemma_split_last(head: Seq<u8>, b: u8, tail: Seq<u8>)
    requires
        forall|i: int| 0 <= i < tail.len() ==> tail[i] != b,
    ensures
        split(head + seq![b] + tail, b) == split(head, b).push(tail),
    decreases tail.len(),
{
    let all = head + seq![b] + tail;
    if tail.len() == 0 {
        assert(all.drop_last() =~= head);
        assert(tail =~= Seq::<u8>::empty());
    } else {
        lemma_split_last(head, b, tail.drop_last());
        assert(all.drop_last() =~= head + seq![b] + tail.drop_last());
        assert(all.last() == tail.last());
        let pieces = split(head, b).push(tail.drop_last());
        assert(pieces.drop_last() =~= split(head, b));
        assert(tail.drop_last().push(tail.last()) =~= tail);
    }
}

} // verus!
