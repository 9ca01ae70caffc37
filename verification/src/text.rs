//! Text as sequences of characters: what the operations on strings compute, and their code.

use vstd::prelude::*;

verus! {

/// `String::push` appends the character to the end of the text.
pub assume_specification[ String::push ](s: &mut String, c: char)
    ensures
        final(s)@ == old(s)@.push(c),
;

/// `==` on `str` tells whether the two hold the same characters.
pub assume_specification[ <str as PartialEq>::eq ](a: &str, b: &str) -> (r: bool)
    ensures
        r == (a@ == b@),
;

/// The texts held by a sequence of strings.
pub open spec fn texts(v: Seq<String>) -> Seq<Seq<char>> {
    Seq::new(v.len(), |i: int| v[i]@)
}

/// The text held by an optional string.
pub open spec fn opt_text(o: Option<String>) -> Option<Seq<char>> {
    match o {
        Some(s) => Some(s@),
        None => None,
    }
}

/// `part` stands in `s` at position `at`.
pub open spec fn stands_at(s: Seq<char>, part: Seq<char>, at: int) -> bool {
    &&& 0 <= at
    &&& at + part.len() <= s.len()
    &&& s.subrange(at, at + part.len()) == part
}

/// `part` stands somewhere in `s`.
pub open spec fn holds(s: Seq<char>, part: Seq<char>) -> bool {
    exists|at: int| stands_at(s, part, at)
}

/// `s` begins with `part`.
pub open spec fn begins(s: Seq<char>, part: Seq<char>) -> bool {
    stands_at(s, part, 0)
}

/// `s` ends with `part`.
pub open spec fn ends(s: Seq<char>, part: Seq<char>) -> bool {
    stands_at(s, part, s.len() - part.len())
}

/// The characters with the Unicode property `White_Space`.
pub open spec fn is_white(c: char) -> bool {
    ||| '\u{9}' <= c <= '\u{d}'
    ||| c == '\u{20}'
    ||| c == '\u{85}'
    ||| c == '\u{a0}'
    ||| c == '\u{1680}'
    ||| '\u{2000}' <= c <= '\u{200a}'
    ||| c == '\u{2028}'
    ||| c == '\u{2029}'
    ||| c == '\u{202f}'
    ||| c == '\u{205f}'
    ||| c == '\u{3000}'
}

/// `s` without the white space at its front.
pub open spec fn trim_front(s: Seq<char>) -> Seq<char>
    decreases s.len(),
{
    if s.len() > 0 && is_white(s[0]) {
        trim_front(s.skip(1))
    } else {
        s
    }
}

/// `s` without the white space at its back.
pub open spec fn trim_back(s: Seq<char>) -> Seq<char>
    decreases s.len(),
{
    if s.len() > 0 && is_white(s.last()) {
        trim_back(s.drop_last())
    } else {
        s
    }
}

/// `s` without the white space at either end.
pub open spec fn trimmed(s: Seq<char>) -> Seq<char> {
    trim_back(trim_front(s))
}

/// `s` without the run of `part`s at its back.
pub open spec fn trim_parts(s: Seq<char>, part: Seq<char>) -> Seq<char>
    decreases s.len(),
{
    if part.len() > 0 && ends(s, part) {
        trim_parts(s.take(s.len() - part.len()), part)
    } else {
        s
    }
}

/// An ASCII capital letter as its small letter, any other character as it is.
pub open spec fn lower_char(c: char) -> char {
    if 'A' <= c <= 'Z' {
        (c as u8 + 32) as u8 as char
    } else {
        c
    }
}

/// `s` with its ASCII capital letters made small.
pub open spec fn lower(s: Seq<char>) -> Seq<char> {
    Seq::new(s.len(), |i: int| lower_char(s[i]))
}

/// The pieces of `s` between the characters that `cut` marks, empty pieces included.
pub open spec fn pieces(s: Seq<char>, cut: spec_fn(char) -> bool) -> Seq<Seq<char>>
    decreases s.len(),
{
    if s.len() == 0 {
        seq![Seq::<char>::empty()]
    } else {
        let before = pieces(s.drop_last(), cut);
        if cut(s.last()) {
            before.push(Seq::<char>::empty())
        } else {
            before.update(before.len() - 1, before.last().push(s.last()))
        }
    }
}

/// Those of the texts that are not empty, in order.
pub open spec fn non_empty(parts: Seq<Seq<char>>) -> Seq<Seq<char>>
    decreases parts.len(),
{
    if parts.len() == 0 {
        Seq::<Seq<char>>::empty()
    } else if parts.last().len() == 0 {
        non_empty(parts.drop_last())
    } else {
        non_empty(parts.drop_last()).push(parts.last())
    }
}

/// The mark of a separator character.
pub open spec fn is_char(c: char) -> spec_fn(char) -> bool {
    |x: char| x == c
}

/// The mark of two separator characters.
pub open spec fn is_either(c: char, d: char) -> spec_fn(char) -> bool {
    |x: char| x == c || x == d
}

/// The mark of white space.
pub open spec fn white() -> spec_fn(char) -> bool {
    |x: char| is_white(x)
}

/// The words of `s`: its longest runs of characters other than white space.
pub open spec fn words(s: Seq<char>) -> Seq<Seq<char>> {
    non_empty(pieces(s, white()))
}

/// The texts one after the other, with `between` between neighbours.
pub open spec fn joined(parts: Seq<Seq<char>>, between: Seq<char>) -> Seq<char>
    decreases parts.len(),
{
    if parts.len() == 0 {
        Seq::<char>::empty()
    } else if parts.len() == 1 {
        parts[0]
    } else {
        joined(parts.drop_last(), between) + between + parts.last()
    }
}

/// The decimal digit of value `d`.
pub open spec fn digit(d: nat) -> char {
    (48 + d) as u8 as char
}

/// The decimal notation of `n`.
pub open spec fn decimal(n: nat) -> Seq<char>
    decreases n,
{
    if n < 10 {
        seq![digit(n)]
    } else {
        decimal(n / 10).push(digit(n % 10))
    }
}

/// The value of a run of decimal digits; none where another character stands among them.
pub open spec fn digits_value(s: Seq<char>) -> Option<nat>
    decreases s.len(),
{
    if s.len() == 0 {
        Some(0)
    } else {
        match digits_value(s.drop_last()) {
            Some(high) if '0' <= s.last() <= '9' => Some(
                high * 10 + (s.last() as u8 - 48) as nat,
            ),
            _ => None,
        }
    }
}

/// The number that `s` denotes: digits, a plus sign before them allowed, up to `u32::MAX`.
pub open spec fn number(s: Seq<char>) -> Option<u32> {
    let digits = if s.len() > 0 && s[0] == '+' {
        s.skip(1)
    } else {
        s
    };
    match digits_value(digits) {
        Some(n) if digits.len() > 0 && n <= u32::MAX => Some(n as u32),
        _ => None,
    }
}

/// `s` without the character `c`.
pub open spec fn without(s: Seq<char>, c: char) -> Seq<char>
    decreases s.len(),
{
    if s.len() == 0 {
        s
    } else if s.last() == c {
        without(s.drop_last(), c)
    } else {
        without(s.drop_last(), c).push(s.last())
    }
}

/// The pieces of a text hold no separator, and nothing that the text does not hold.
pub proof fn lemma_pieces_clean(s: Seq<char>, cut: spec_fn(char) -> bool)
    ensures
        pieces(s, cut).len() > 0,
        forall|i: int, j: int|
            0 <= i < pieces(s, cut).len() && 0 <= j < pieces(s, cut)[i].len() ==> {
                &&& !cut(#[trigger] pieces(s, cut)[i][j])
                &&& s.contains(pieces(s, cut)[i][j])
            },
    decreases s.len(),
{
    if s.len() > 0 {
        let head = s.drop_last();
        let before = pieces(head, cut);
        lemma_pieces_clean(head, cut);
        assert forall|i: int, j: int|
            0 <= i < pieces(s, cut).len() && 0 <= j < pieces(s, cut)[i].len() implies {
            &&& !cut(#[trigger] pieces(s, cut)[i][j])
            &&& s.contains(pieces(s, cut)[i][j])
        } by {
            let c = pieces(s, cut)[i][j];
            if i < before.len() && j < before[i].len() {
                assert(c == before[i][j]);
                assert(head.contains(c));
                let k = choose|k: int| 0 <= k < head.len() && head[k] == c;
                assert(s[k] == c);
            } else {
                assert(c == s.last());
                assert(s[s.len() - 1] == c);
            }
        }
    }
}

/// Marks that agree on the characters of a text cut it into the same pieces.
pub proof fn lemma_same_pieces(
    s: Seq<char>,
    cut: spec_fn(char) -> bool,
    other: spec_fn(char) -> bool,
)
    requires
        forall|i: int| 0 <= i < s.len() ==> cut(#[trigger] s[i]) == other(s[i]),
    ensures
        pieces(s, cut) == pieces(s, other),
    decreases s.len(),
{
    if s.len() > 0 {
        let head = s.drop_last();
        assert forall|i: int| 0 <= i < head.len() implies cut(#[trigger] head[i]) == other(
            head[i],
        ) by {
            assert(head[i] == s[i]);
        }
        lemma_same_pieces(head, cut, other);
        assert(cut(s[s.len() - 1]) == other(s[s.len() - 1]));
    }
}

/// Appending a text without separators lengthens the last piece by it.
proof fn lemma_pieces_append(a: Seq<char>, b: Seq<char>, cut: spec_fn(char) -> bool)
    requires
        forall|j: int| 0 <= j < b.len() ==> !cut(#[trigger] b[j]),
    ensures
        pieces(a + b, cut) == pieces(a, cut).update(
            pieces(a, cut).len() - 1,
            pieces(a, cut).last() + b,
        ),
    decreases b.len(),
{
    lemma_pieces_clean(a, cut);
    if b.len() == 0 {
        assert(a + b =~= a);
        assert(pieces(a, cut).last() + b =~= pieces(a, cut).last());
    } else {
        let head = b.drop_last();
        assert forall|j: int| 0 <= j < head.len() implies !cut(#[trigger] head[j]) by {
            assert(head[j] == b[j]);
        }
        lemma_pieces_append(a, head, cut);
        assert((a + b).drop_last() =~= a + head);
        assert((a + b).last() == b[b.len() - 1]);
        assert((pieces(a, cut).last() + head).push(b.last()) =~= pieces(a, cut).last() + b);
    }
}

/// Joining texts that do not hold the separator, and splitting at it, undo each other.
pub proof fn lemma_split_joined(parts: Seq<Seq<char>>, c: char)
    requires
        parts.len() > 0,
        forall|i: int| 0 <= i < parts.len() ==> !(#[trigger] parts[i]).contains(c),
    ensures
        pieces(joined(parts, seq![c]), is_char(c)) == parts,
    decreases parts.len(),
{
    let cut = is_char(c);
    let last = parts.last();
    assert(!parts[parts.len() - 1].contains(c));
    assert forall|j: int| 0 <= j < last.len() implies !cut(#[trigger] last[j]) by {
        assert(last.contains(last[j]));
    }
    if parts.len() == 1 {
        lemma_pieces_append(Seq::<char>::empty(), last, cut);
        assert(Seq::<char>::empty() + last =~= last);
        assert(pieces(last, cut) =~= parts);
    } else {
        let head = parts.drop_last();
        assert forall|i: int| 0 <= i < head.len() implies !(#[trigger] head[i]).contains(c) by {
            assert(head[i] == parts[i]);
        }
        lemma_split_joined(head, c);
        let a = joined(head, seq![c]);
        let b = a.push(c);
        assert(a + seq![c] =~= b);
        assert(b.drop_last() =~= a);
        assert(pieces(b, cut) == head.push(Seq::<char>::empty()));
        lemma_pieces_append(b, last, cut);
        assert(Seq::<char>::empty() + last =~= last);
        assert(head.push(Seq::<char>::empty()).update(head.len() as int, last) =~= parts);
    }
}

/// The pieces of two texts with a separator between them are those of the one, then those of the
/// other.
pub proof fn lemma_pieces_of_two(a: Seq<char>, b: Seq<char>, c: char)
    ensures
        pieces(a.push(c) + b, is_char(c)) == pieces(a, is_char(c)) + pieces(b, is_char(c)),
    decreases b.len(),
{
    let cut = is_char(c);
    let whole = a.push(c) + b;
    if b.len() == 0 {
        assert(whole =~= a.push(c));
        assert(whole.drop_last() =~= a);
        assert(pieces(a, cut).push(b) =~= pieces(a, cut) + seq![b]);
        assert(b =~= Seq::<char>::empty());
    } else {
        let head = b.drop_last();
        lemma_pieces_of_two(a, head, c);
        lemma_pieces_clean(head, cut);
        assert(whole.drop_last() =~= a.push(c) + head);
        assert(whole.last() == b.last());
        let first = pieces(a, cut);
        let rest = pieces(head, cut);
        if cut(b.last()) {
            assert((first + rest).push(Seq::<char>::empty()) =~= first + rest.push(
                Seq::<char>::empty(),
            ));
        } else {
            assert((first + rest).last() == rest.last());
            assert((first + rest).update(
                (first + rest).len() - 1,
                rest.last().push(b.last()),
            ) =~= first + rest.update(rest.len() - 1, rest.last().push(b.last())));
        }
    }
}

/// White space around a text that neither begins nor ends with it is taken off.
pub proof fn lemma_trimmed_of(before: Seq<char>, s: Seq<char>, after: Seq<char>)
    requires
        forall|i: int| 0 <= i < before.len() ==> is_white(#[trigger] before[i]),
        s.len() > 0,
        !is_white(s[0]),
        !is_white(s.last()),
        forall|i: int| 0 <= i < after.len() ==> is_white(#[trigger] after[i]),
    ensures
        trimmed(before + s + after) == s,
    decreases before.len() + after.len(),
{
    let whole = before + s + after;
    if before.len() > 0 {
        let rest = before.skip(1);
        assert(whole[0] == before[0]);
        assert(whole.skip(1) =~= rest + s + after);
        assert forall|i: int| 0 <= i < rest.len() implies is_white(#[trigger] rest[i]) by {
            assert(rest[i] == before[i + 1]);
        }
        lemma_trimmed_of(rest, s, after);
    } else if after.len() > 0 {
        let rest = after.drop_last();
        assert(whole[0] == s[0]);
        assert(whole.last() == after[after.len() - 1]);
        assert(whole.drop_last() =~= before + s + rest);
        assert((before + s + rest)[0] == s[0]);
        assert forall|i: int| 0 <= i < rest.len() implies is_white(#[trigger] rest[i]) by {
            assert(rest[i] == after[i]);
        }
        lemma_trimmed_of(before, s, rest);
    } else {
        assert(whole =~= s);
    }
}

/// `s` as its characters.
pub fn chars_of(s: &str) -> (r: Vec<char>)
    ensures
        r@ == s@,
{
    let mut out: Vec<char> = Vec::new();
    for c in it: s.chars()
        invariant
            it.seq() == s@,
            out@ == s@.take(it.index()),
    {
        out.push(c);
    }
    out
}

/// The characters from `from` up to `to` as a string.
pub fn text_of(chars: &[char], from: usize, to: usize) -> (r: String)
    requires
        from <= to <= chars@.len(),
    ensures
        r@ == chars@.subrange(from as int, to as int),
{
    let mut out = String::new();
    for i in from..to
        invariant
            from <= i <= to <= chars@.len(),
            out@ == chars@.subrange(from as int, i as int),
    {
        out.push(chars[i]);
        assert(chars@.subrange(from as int, i + 1) =~= chars@.subrange(from as int, i as int).push(
            chars@[i as int],
        ));
    }
    out
}

/// Whether `part` stands in `s` at position `at`.
fn stands(s: &[char], part: &[char], at: usize) -> (r: bool)
    ensures
        r == stands_at(s@, part@, at as int),
{
    if at > s.len() || part.len() > s.len() - at {
        return false;
    }
    for i in 0..part.len()
        invariant
            at + part@.len() <= s@.len() <= usize::MAX,
            forall|j: int| 0 <= j < i ==> s@[at + j] == part@[j],
    {
        if s[at + i] != part[i] {
            assert(s@.subrange(at as int, at + part@.len())[i as int] != part@[i as int]);
            return false;
        }
    }
    assert(s@.subrange(at as int, at + part@.len()) =~= part@);
    true
}

/// Whether `part` stands somewhere in `s`.
pub fn has_part(s: &str, part: &str) -> (r: bool)
    ensures
        r == holds(s@, part@),
{
    let all = chars_of(s);
    let wanted = chars_of(part);
    if wanted.len() > all.len() {
        return false;
    }
    let last: usize = all.len() - wanted.len();
    let mut at: usize = 0;
    while at <= last
        invariant
            all@ == s@,
            wanted@ == part@,
            last + wanted@.len() == all@.len(),
            at <= last + 1,
            forall|i: int| 0 <= i < at ==> !stands_at(s@, part@, i),
        decreases last + 1 - at,
    {
        if stands(&all, &wanted, at) {
            return true;
        }
        if at == last {
            assert forall|i: int| !stands_at(s@, part@, i) by {
                if 0 <= i <= last {
                    assert(i == last || i < at);
                }
            }
            return false;
        }
        at += 1;
    }
    false
}

/// Whether the character `c` stands in `s`.
pub fn has_char(s: &str, c: char) -> (r: bool)
    ensures
        r == s@.contains(c),
{
    let all = chars_of(s);
    for i in 0..all.len()
        invariant
            all@ == s@,
            forall|j: int| 0 <= j < i ==> s@[j] != c,
    {
        if all[i] == c {
            assert(s@[i as int] == c);
            return true;
        }
    }
    false
}

/// Whether `s` begins with `part`.
pub fn begins_with(s: &str, part: &str) -> (r: bool)
    ensures
        r == begins(s@, part@),
{
    let all = chars_of(s);
    let wanted = chars_of(part);
    stands(&all, &wanted, 0)
}

/// Whether `s` ends with `part`.
pub fn ends_with(s: &str, part: &str) -> (r: bool)
    ensures
        r == ends(s@, part@),
{
    let all = chars_of(s);
    let wanted = chars_of(part);
    if wanted.len() > all.len() {
        return false;
    }
    stands(&all, &wanted, all.len() - wanted.len())
}

/// `s` without `part` at its front, where `s` begins with it.
pub fn strip_front(s: &str, part: &str) -> (r: Option<String>)
    ensures
        opt_text(r) == if begins(s@, part@) {
            Some(s@.skip(part@.len() as int))
        } else {
            None
        },
{
    let all = chars_of(s);
    let wanted = chars_of(part);
    if stands(&all, &wanted, 0) {
        let rest = text_of(&all, wanted.len(), all.len());
        assert(rest@ =~= s@.skip(part@.len() as int));
        Some(rest)
    } else {
        None
    }
}

/// `s` without `part` at its back, where `s` ends with it.
pub fn strip_back(s: &str, part: &str) -> (r: Option<String>)
    ensures
        opt_text(r) == if ends(s@, part@) {
            Some(s@.take(s@.len() - part@.len()))
        } else {
            None
        },
{
    let all = chars_of(s);
    let wanted = chars_of(part);
    if wanted.len() <= all.len() && stands(&all, &wanted, all.len() - wanted.len()) {
        let rest = text_of(&all, 0, all.len() - wanted.len());
        assert(rest@ =~= s@.take(s@.len() - part@.len()));
        Some(rest)
    } else {
        None
    }
}

/// Whether `c` is white space.
pub fn is_white_space(c: char) -> (r: bool)
    ensures
        r == is_white(c),
{
    ('\u{9}' <= c && c <= '\u{d}') || c == '\u{20}' || c == '\u{85}' || c == '\u{a0}' || c
        == '\u{1680}' || ('\u{2000}' <= c && c <= '\u{200a}') || c == '\u{2028}' || c == '\u{2029}'
        || c == '\u{202f}' || c == '\u{205f}' || c == '\u{3000}'
}

/// `s` without the white space at either end.
pub fn trim(s: &str) -> (r: String)
    ensures
        r@ == trimmed(s@),
{
    let all = chars_of(s);
    let mut from: usize = 0;
    assert(s@.skip(0) =~= s@);
    while from < all.len() && is_white_space(all[from])
        invariant
            all@ == s@,
            from <= all@.len(),
            trim_front(s@) == trim_front(s@.skip(from as int)),
        decreases all@.len() - from,
    {
        assert(s@.skip(from as int).skip(1) =~= s@.skip(from + 1));
        from += 1;
    }
    assert(trim_front(s@) == s@.skip(from as int));
    let mut to: usize = all.len();
    assert(s@.skip(from as int) =~= s@.subrange(from as int, to as int));
    while to > from && is_white_space(all[to - 1])
        invariant
            all@ == s@,
            from <= to <= all@.len(),
            trimmed(s@) == trim_back(s@.subrange(from as int, to as int)),
        decreases to,
    {
        assert(s@.subrange(from as int, to as int).drop_last() =~= s@.subrange(
            from as int,
            to - 1,
        ));
        to -= 1;
    }
    text_of(&all, from, to)
}

/// `s` without the run of `part`s at its back.
pub fn trim_end_parts(s: &str, part: &str) -> (r: String)
    ensures
        r@ == trim_parts(s@, part@),
{
    let all = chars_of(s);
    let wanted = chars_of(part);
    let mut to: usize = all.len();
    assert(s@.take(to as int) =~= s@);
    while wanted.len() > 0 && to >= wanted.len() && stands(&all, &wanted, to - wanted.len())
        invariant
            all@ == s@,
            wanted@ == part@,
            to <= all@.len(),
            trim_parts(s@, part@) == trim_parts(s@.take(to as int), part@),
        decreases to,
    {
        proof {
            let now = s@.take(to as int);
            assert(now.subrange(to - part@.len(), to as int) =~= s@.subrange(
                to - part@.len(),
                to as int,
            ));
            assert(now.take(to - part@.len()) =~= s@.take(to - part@.len()));
        }
        to -= wanted.len();
    }
    proof {
        let now = s@.take(to as int);
        if part@.len() > 0 && ends(now, part@) {
            assert(now.subrange(to - part@.len(), to as int) =~= s@.subrange(
                to - part@.len(),
                to as int,
            ));
        }
        assert(now =~= s@.subrange(0, to as int));
    }
    text_of(&all, 0, to)
}

/// `s` with its ASCII capital letters made small.
pub fn to_lower(s: &str) -> (r: String)
    ensures
        r@ == lower(s@),
{
    let mut out = String::new();
    for c in it: s.chars()
        invariant
            it.seq() == s@,
            out@ == lower(s@).take(it.index()),
    {
        let small = if 'A' <= c && c <= 'Z' {
            (c as u8 + 32) as char
        } else {
            c
        };
        out.push(small);
    }
    out
}

/// The pieces of `s` between the characters equal to `c`, empty pieces included.
pub fn split_at_char(s: &str, c: char) -> (r: Vec<String>)
    ensures
        texts(r@) == pieces(s@, is_char(c)),
        r@.len() > 0,
{
    let r = split_at_either(s, c, c);
    proof {
        lemma_same_pieces(s@, is_either(c, c), is_char(c));
    }
    r
}

/// The pieces of `s` between the characters equal to `c` or `d`, empty pieces included.
pub fn split_at_either(s: &str, c: char, d: char) -> (r: Vec<String>)
    ensures
        texts(r@) == pieces(s@, is_either(c, d)),
        r@.len() > 0,
{
    let mut out: Vec<String> = Vec::new();
    let mut current = String::new();
    for x in it: s.chars()
        invariant
            it.seq() == s@,
            texts(out@).push(current@) == pieces(s@.take(it.index()), is_either(c, d)),
    {
        proof {
            let next = s@.take(it.index() + 1);
            assert(next.drop_last() =~= s@.take(it.index()));
            assert(next.last() == x);
        }
        let ghost before = texts(out@).push(current@);
        if x == c || x == d {
            out.push(current);
            current = String::new();
            assert(texts(out@) =~= before);
        } else {
            current.push(x);
            assert(before.update(before.len() - 1, current@) =~= texts(out@).push(current@));
        }
    }
    let ghost last = current@;
    let ghost firsts = texts(out@);
    out.push(current);
    assert(s@.take(s@.len() as int) =~= s@);
    assert(texts(out@) =~= firsts.push(last));
    out
}

/// The words of `s`, in order.
pub fn split_words(s: &str) -> (r: Vec<String>)
    ensures
        texts(r@) == words(s@),
{
    let mut out: Vec<String> = Vec::new();
    let mut current = String::new();
    let ghost mut found: Seq<Seq<char>> = Seq::empty();
    assert(texts(out@) =~= non_empty(found));
    for x in it: s.chars()
        invariant
            it.seq() == s@,
            found.push(current@) == pieces(s@.take(it.index()), white()),
            texts(out@) == non_empty(found),
    {
        proof {
            let next = s@.take(it.index() + 1);
            assert(next.drop_last() =~= s@.take(it.index()));
            assert(next.last() == x);
        }
        let ghost before = found.push(current@);
        if is_white_space(x) {
            proof {
                assert(before.drop_last() =~= found);
                found = before;
            }
            let ghost word = current@;
            let ghost firsts = texts(out@);
            if !current.as_str().is_empty() {
                out.push(current);
                assert(texts(out@) =~= firsts.push(word));
            }
            current = String::new();
        } else {
            current.push(x);
            assert(before.update(before.len() - 1, current@) =~= found.push(current@));
        }
    }
    let ghost word = current@;
    let ghost firsts = texts(out@);
    proof {
        assert(s@.take(s@.len() as int) =~= s@);
        assert(found.push(word).drop_last() =~= found);
    }
    if !current.as_str().is_empty() {
        out.push(current);
        assert(texts(out@) =~= firsts.push(word));
    }
    out
}

/// The texts one after the other, with `between` between neighbours.
pub fn join(parts: &Vec<String>, between: &str) -> (r: String)
    ensures
        r@ == joined(texts(parts@), between@),
{
    let mut out = String::new();
    let ghost all = texts(parts@);
    for i in 0..parts.len()
        invariant
            all == texts(parts@),
            out@ == joined(all.take(i as int), between@),
    {
        proof {
            assert(all.take(i + 1).drop_last() =~= all.take(i as int));
        }
        if i > 0 {
            out.append(between);
        }
        out.append(parts[i].as_str());
    }
    assert(all.take(parts@.len() as int) =~= all);
    out
}

/// The decimal notation of `n`.
pub fn to_decimal(n: u32) -> (r: String)
    ensures
        r@ == decimal(n as nat),
    decreases n,
{
    if n < 10 {
        let mut out = String::new();
        out.push((48 + n as u8) as char);
        out
    } else {
        let mut out = to_decimal(n / 10);
        out.push((48 + (n % 10) as u8) as char);
        out
    }
}

/// `s` without the character `c`.
pub fn drop_char(s: &str, c: char) -> (r: String)
    ensures
        r@ == without(s@, c),
{
    let mut out = String::new();
    for x in it: s.chars()
        invariant
            it.seq() == s@,
            out@ == without(s@.take(it.index()), c),
    {
        proof {
            assert(s@.take(it.index() + 1).drop_last() =~= s@.take(it.index()));
        }
        if x != c {
            out.push(x);
        }
    }
    assert(s@.take(s@.len() as int) =~= s@);
    out
}

proof fn lemma_digits_grow(s: Seq<char>, i: int)
    requires
        0 <= i <= s.len(),
    ensures
        digits_value(s.take(i)) is None ==> digits_value(s) is None,
        digits_value(s) matches Some(n) ==> digits_value(s.take(i))->0 <= n,
    decreases s.len() - i,
{
    if i < s.len() {
        lemma_digits_grow(s, i + 1);
        assert(s.take(i + 1).drop_last() =~= s.take(i));
    } else {
        assert(s.take(i) =~= s);
    }
}

/// The number that `s` denotes, if it denotes one.
pub fn parse_number(s: &str) -> (r: Option<u32>)
    ensures
        r == number(s@),
{
    let all = chars_of(s);
    let from: usize = if all.len() > 0 && all[0] == '+' {
        1
    } else {
        0
    };
    let ghost digits = s@.skip(from as int);
    assert(from == 0 ==> digits =~= s@);
    if all.len() == from {
        return None;
    }
    let mut value: u32 = 0;
    for i in from..all.len()
        invariant
            all@ == s@,
            from <= i <= all@.len(),
            digits == s@.skip(from as int),
            from == if s@.len() > 0 && s@[0] == '+' {
                1int
            } else {
                0int
            },
            from == 0 ==> digits == s@,
            digits_value(digits.take(i - from)) == Some(value as nat),
    {
        let c = all[i];
        proof {
            lemma_digits_grow(digits, i + 1 - from);
            assert(digits.take(i + 1 - from).drop_last() =~= digits.take(i - from));
            assert(digits.take(i + 1 - from).last() == c);
        }
        if !('0' <= c && c <= '9') {
            return None;
        }
        let d: u32 = (c as u8 - 48) as u32;
        if value > (u32::MAX - d) / 10 {
            return None;
        }
        value = value * 10 + d;
    }
    assert(digits.take(digits.len() as int) =~= digits);
    Some(value)
}

/// A text stands in another exactly where that is the text with something before it and something
/// behind it; it begins it where nothing is before it, and ends it where nothing is behind it.
pub proof fn law_parts_of_texts(before: Seq<char>, part: Seq<char>, after: Seq<char>, s: Seq<char>)
    ensures
        holds(before + part + after, part),
        begins(part + after, part),
        ends(before + part, part),
        holds(s, part) ==> exists|a: Seq<char>, b: Seq<char>| s == #[trigger] (a + part + b),
        begins(s, part) ==> exists|b: Seq<char>| s == #[trigger] (part + b),
        ends(s, part) ==> exists|a: Seq<char>| s == #[trigger] (a + part),
{
    let whole = before + part + after;
    assert(whole.subrange(before.len() as int, (before.len() + part.len()) as int) =~= part);
    assert(stands_at(whole, part, before.len() as int));
    assert((part + after).subrange(0, part.len() as int) =~= part);
    let back = before + part;
    assert(back.subrange(back.len() - part.len(), back.len() as int) =~= part);
    if holds(s, part) {
        let at = choose|at: int| stands_at(s, part, at);
        assert(s =~= s.take(at) + part + s.skip(at + part.len()));
    }
    if begins(s, part) {
        assert(s =~= part + s.skip(part.len() as int));
    }
    if ends(s, part) {
        assert(s =~= s.take(s.len() - part.len()) + part);
    }
}

/// White space is what Unicode counts as such.
pub proof fn law_white_space(c: char)
    ensures
        is_white(c) <==> {
            let n = c as u32;
            ||| 9 <= n <= 13
            ||| n == 32
            ||| n == 0x85
            ||| n == 0xa0
            ||| n == 0x1680
            ||| 0x2000 <= n <= 0x200a
            ||| n == 0x2028
            ||| n == 0x2029
            ||| n == 0x202f
            ||| n == 0x205f
            ||| n == 0x3000
        },
{
}

/// Trimming takes white space off both ends, and takes off nothing but white space.
pub proof fn law_trimmed(s: Seq<char>)
    ensures
        trimmed(s).len() > 0 ==> !is_white(trimmed(s)[0]) && !is_white(trimmed(s).last()),
        exists|a: Seq<char>, b: Seq<char>| #[trigger]
            (a + trimmed(s) + b) == s && (forall|i: int| 0 <= i < a.len() ==> is_white(a[i])) && (
            forall|i: int| 0 <= i < b.len() ==> is_white(b[i])),
{
    let front = trim_front(s);
    lemma_trim_front(s);
    lemma_trim_back(front);
    let a = choose|a: Seq<char>| #[trigger] (a + front) == s && forall|i: int|
        0 <= i < a.len() ==> is_white(a[i]);
    let b = choose|b: Seq<char>| #[trigger] (trim_back(front) + b) == front && forall|i: int|
        0 <= i < b.len() ==> is_white(b[i]);
    assert(a + trimmed(s) + b =~= s);
    if trimmed(s).len() > 0 {
        assert(trimmed(s)[0] == front[0]);
    }
}

proof fn lemma_trim_front(s: Seq<char>)
    ensures
        trim_front(s).len() > 0 ==> !is_white(trim_front(s)[0]),
        exists|a: Seq<char>| #[trigger] (a + trim_front(s)) == s && forall|i: int|
            0 <= i < a.len() ==> is_white(a[i]),
    decreases s.len(),
{
    if s.len() > 0 && is_white(s[0]) {
        lemma_trim_front(s.skip(1));
        let a = choose|a: Seq<char>| #[trigger] (a + trim_front(s.skip(1))) == s.skip(1)
            && forall|i: int| 0 <= i < a.len() ==> is_white(a[i]);
        let more = seq![s[0]] + a;
        assert(more + trim_front(s) =~= seq![s[0]] + s.skip(1));
        assert(seq![s[0]] + s.skip(1) =~= s);
    } else {
        assert(Seq::<char>::empty() + trim_front(s) =~= s);
    }
}

proof fn lemma_trim_back(s: Seq<char>)
    ensures
        trim_back(s).len() > 0 ==> !is_white(trim_back(s).last()),
        exists|b: Seq<char>| #[trigger] (trim_back(s) + b) == s && forall|i: int|
            0 <= i < b.len() ==> is_white(b[i]),
    decreases s.len(),
{
    if s.len() > 0 && is_white(s.last()) {
        let head = s.drop_last();
        lemma_trim_back(head);
        let b = choose|b: Seq<char>| #[trigger] (trim_back(head) + b) == head && forall|i: int|
            0 <= i < b.len() ==> is_white(b[i]);
        let more = b.push(s.last());
        assert(trim_back(s) + more =~= head.push(s.last()));
        assert(head.push(s.last()) =~= s);
    } else {
        assert(trim_back(s) + Seq::<char>::empty() =~= s);
    }
}

/// Taking parts off the back takes off each part that stands there, and stops where none does.
pub proof fn law_trim_parts(s: Seq<char>, part: Seq<char>)
    requires
        part.len() > 0,
    ensures
        trim_parts(s + part, part) == trim_parts(s, part),
        !ends(trim_parts(s, part), part),
        (forall|a: Seq<char>| s != #[trigger] (a + part)) ==> trim_parts(s, part) == s,
    decreases s.len(),
{
    let more = s + part;
    assert(more.subrange(more.len() - part.len(), more.len() as int) =~= part);
    assert(more.take(more.len() - part.len()) =~= s);
    if ends(s, part) {
        let rest = s.take(s.len() - part.len());
        assert(s =~= rest + part);
        law_trim_parts(rest, part);
    }
}

/// Making letters small changes the ASCII capitals, each to its small letter, and nothing else.
pub proof fn law_lower(s: Seq<char>, i: int)
    requires
        0 <= i < s.len(),
    ensures
        lower(s).len() == s.len(),
        'A' <= s[i] <= 'Z' ==> lower(s)[i] as u32 == s[i] as u32 + 32,
        !('A' <= s[i] <= 'Z') ==> lower(s)[i] == s[i],
{
}

/// Splitting at a separator: a text without it is one piece, and the pieces of two texts with it
/// between them are those of the one, then those of the other.
pub proof fn law_pieces(a: Seq<char>, b: Seq<char>, c: char)
    ensures
        !a.contains(c) ==> pieces(a, is_char(c)) == seq![a],
        pieces(a + seq![c] + b, is_char(c)) == pieces(a, is_char(c)) + pieces(b, is_char(c)),
{
    if !a.contains(c) {
        let none = Seq::<char>::empty();
        let cut = is_char(c);
        assert forall|j: int| 0 <= j < a.len() implies !cut(#[trigger] a[j]) by {
            assert(a.contains(a[j]));
        }
        lemma_pieces_append(none, a, cut);
        assert(none + a =~= a);
        assert(pieces(a, cut) =~= seq![a]);
    }
    assert(a + seq![c] + b =~= a.push(c) + b);
    lemma_pieces_of_two(a, b, c);
}

proof fn lemma_non_empty_of_two(a: Seq<Seq<char>>, b: Seq<Seq<char>>)
    ensures
        non_empty(a + b) == non_empty(a) + non_empty(b),
    decreases b.len(),
{
    if b.len() == 0 {
        assert(a + b =~= a);
        assert(non_empty(a) + non_empty(b) =~= non_empty(a));
    } else {
        let head = b.drop_last();
        lemma_non_empty_of_two(a, head);
        assert((a + b).drop_last() =~= a + head);
        assert((a + b).last() == b.last());
        assert((non_empty(a) + non_empty(head)).push(b.last()) =~= non_empty(a) + non_empty(
            head,
        ).push(b.last()));
    }
}

proof fn lemma_white_pieces_of_two(a: Seq<char>, b: Seq<char>, c: char)
    requires
        is_white(c),
    ensures
        pieces(a.push(c) + b, white()) == pieces(a, white()) + pieces(b, white()),
    decreases b.len(),
{
    let cut = white();
    let whole = a.push(c) + b;
    if b.len() == 0 {
        assert(whole =~= a.push(c));
        assert(whole.drop_last() =~= a);
        assert(pieces(a, cut).push(b) =~= pieces(a, cut) + seq![b]);
        assert(b =~= Seq::<char>::empty());
    } else {
        let head = b.drop_last();
        lemma_white_pieces_of_two(a, head, c);
        lemma_pieces_clean(head, cut);
        assert(whole.drop_last() =~= a.push(c) + head);
        assert(whole.last() == b.last());
        let first = pieces(a, cut);
        let rest = pieces(head, cut);
        if cut(b.last()) {
            assert((first + rest).push(Seq::<char>::empty()) =~= first + rest.push(
                Seq::<char>::empty(),
            ));
        } else {
            assert((first + rest).last() == rest.last());
            assert((first + rest).update(
                (first + rest).len() - 1,
                rest.last().push(b.last()),
            ) =~= first + rest.update(rest.len() - 1, rest.last().push(b.last())));
        }
    }
}

/// The words of a text: a text without white space is one word, if it is not empty, and the words of
/// two texts with white space between them are those of the one, then those of the other.
pub proof fn law_words(a: Seq<char>, b: Seq<char>, c: char)
    ensures
        (forall|i: int| 0 <= i < a.len() ==> !is_white(a[i])) ==> words(a) == if a.len() == 0 {
            Seq::<Seq<char>>::empty()
        } else {
            seq![a]
        },
        is_white(c) ==> words(a + seq![c] + b) == words(a) + words(b),
{
    let cut = white();
    let none = Seq::<char>::empty();
    if forall|i: int| 0 <= i < a.len() ==> !is_white(a[i]) {
        assert forall|j: int| 0 <= j < a.len() implies !cut(#[trigger] a[j]) by {}
        lemma_pieces_append(none, a, cut);
        assert(none + a =~= a);
        assert(pieces(a, cut) =~= seq![a]);
        assert(seq![a].drop_last() =~= Seq::<Seq<char>>::empty());
        assert(non_empty(seq![a].drop_last()) =~= Seq::<Seq<char>>::empty());
        if a.len() > 0 {
            assert(words(a) =~= seq![a]);
        }
    }
    if is_white(c) {
        assert(a + seq![c] + b =~= a.push(c) + b);
        lemma_white_pieces_of_two(a, b, c);
        lemma_non_empty_of_two(pieces(a, cut), pieces(b, cut));
    }
}

/// Joining: nothing gives nothing, one text is itself, and what two lists give stands with the
/// separator between it.
pub proof fn law_joined(a: Seq<Seq<char>>, b: Seq<Seq<char>>, x: Seq<char>, between: Seq<char>)
    ensures
        joined(Seq::empty(), between) == Seq::<char>::empty(),
        joined(seq![x], between) == x,
        a.len() > 0 && b.len() > 0 ==> joined(a + b, between) == joined(a, between) + between
            + joined(b, between),
    decreases b.len(),
{
    if a.len() > 0 && b.len() > 0 {
        let head = b.drop_last();
        assert((a + b).drop_last() =~= a + head);
        assert((a + b).last() == b.last());
        if head.len() > 0 {
            law_joined(a, head, x, between);
            assert(joined(a, between) + between + joined(head, between) + between + b.last()
                =~= joined(a, between) + between + (joined(head, between) + between + b.last()));
        } else {
            assert(a + head =~= a);
            assert(b[0] == b.last());
        }
    }
}

/// The decimal notation of a number: its digits, the first of which is no zero unless it is the
/// only one, and that are read as the number.
pub proof fn law_decimal(n: nat)
    ensures
        digits_value(decimal(n)) == Some(n),
        decimal(n).len() > 0,
        decimal(n)[0] == '0' ==> n == 0,
        n <= u32::MAX ==> number(decimal(n)) == Some(n as u32),
    decreases n,
{
    reveal_with_fuel(digits_value, 2);
    if n < 10 {
        assert(decimal(n).drop_last() =~= Seq::<char>::empty());
    } else {
        law_decimal(n / 10);
        assert(decimal(n).drop_last() =~= decimal(n / 10));
        assert(decimal(n)[0] == decimal(n / 10)[0]);
    }
    lemma_decimal_digits(n);
    assert(decimal(n)[0] != '+');
}

proof fn lemma_decimal_digits(n: nat)
    ensures
        decimal(n).len() > 0,
        forall|i: int| 0 <= i < decimal(n).len() ==> '0' <= #[trigger] decimal(n)[i] <= '9',
    decreases n,
{
    if n >= 10 {
        lemma_decimal_digits(n / 10);
        assert forall|i: int| 0 <= i < decimal(n).len() implies '0' <= #[trigger] decimal(n)[i]
            <= '9' by {
            if i < decimal(n / 10).len() {
                assert(decimal(n)[i] == decimal(n / 10)[i]);
            }
        }
    }
}

/// A number is read digit by digit, from nothing but digits, and a plus sign before them makes no
/// difference; what is too large for the type, and no digit at all, is no number.
pub proof fn law_number(s: Seq<char>, c: char)
    ensures
        digits_value(Seq::empty()) == Some(0nat),
        '0' <= c <= '9' ==> digits_value(s.push(c)) == match digits_value(s) {
            Some(n) => Some((n * 10 + (c as u32 - '0' as u32)) as nat),
            None => None,
        },
        !('0' <= c <= '9') ==> digits_value(s.push(c)) is None,
        s.len() > 0 && s[0] != '+' ==> number(seq!['+'] + s) == number(s),
        s.len() > 0 && s[0] != '+' ==> number(s) == match digits_value(s) {
            Some(n) => if n <= 4294967295 {
                Some(n as u32)
            } else {
                None
            },
            None => None,
        },
        number(Seq::empty()) is None,
        number(seq!['+']) is None,
{
    assert(s.push(c).drop_last() =~= s);
    assert((seq!['+'] + s).skip(1) =~= s);
    assert(seq!['+'].skip(1) =~= Seq::<char>::empty());
}

/// Leaving out a character leaves the others, in their order.
pub proof fn law_without(s: Seq<char>, c: char)
    ensures
        without(s, c) == s.filter(|x: char| x != c),
    decreases s.len(),
{
    reveal(Seq::filter);
    if s.len() > 0 {
        law_without(s.drop_last(), c);
    }
}

/// Texts that are words, joined with blanks, have these words.
pub proof fn lemma_words_joined(parts: Seq<Seq<char>>)
    requires
        forall|i: int| 0 <= i < parts.len() ==> (#[trigger] parts[i]).len() > 0,
        forall|i: int, j: int|
            0 <= i < parts.len() && 0 <= j < parts[i].len() ==> !is_white(#[trigger] parts[i][j]),
    ensures
        words(joined(parts, seq![' '])) == parts,
    decreases parts.len(),
{
    if parts.len() == 0 {
        law_words(Seq::empty(), Seq::empty(), ' ');
        assert(words(joined(parts, seq![' '])) =~= parts);
    } else {
        let last = parts.last();
        let head = parts.drop_last();
        assert(parts[parts.len() - 1].len() > 0);
        assert forall|j: int| 0 <= j < last.len() implies !is_white(last[j]) by {
            assert(!is_white(parts[parts.len() - 1][j]));
        }
        law_words(last, last, ' ');
        if parts.len() == 1 {
            assert(parts =~= seq![last]);
        } else {
            assert forall|i: int| 0 <= i < head.len() implies (#[trigger] head[i]).len() > 0 by {
                assert(head[i] == parts[i]);
            }
            assert forall|i: int, j: int|
                0 <= i < head.len() && 0 <= j < head[i].len() implies !is_white(
                #[trigger] head[i][j],
            ) by {
                assert(head[i] == parts[i]);
                assert(!is_white(parts[i][j]));
            }
            lemma_words_joined(head);
            law_words(joined(head, seq![' ']), last, ' ');
            assert(head + seq![last] =~= parts);
        }
    }
}

/// Words are not empty and hold no white space.
pub proof fn lemma_words_clean(s: Seq<char>)
    ensures
        forall|i: int| 0 <= i < words(s).len() ==> (#[trigger] words(s)[i]).len() > 0,
        forall|i: int, j: int|
            0 <= i < words(s).len() && 0 <= j < words(s)[i].len() ==> !is_white(
                #[trigger] words(s)[i][j],
            ),
{
    let all = pieces(s, white());
    lemma_pieces_clean(s, white());
    lemma_non_empty_clean(all);
    assert forall|i: int, j: int|
        0 <= i < words(s).len() && 0 <= j < words(s)[i].len() implies !is_white(
        #[trigger] words(s)[i][j],
    ) by {
        let w = words(s)[i];
        assert(all.contains(w));
        let k = choose|k: int| 0 <= k < all.len() && all[k] == w;
        assert(!white()(all[k][j]));
    }
}

proof fn lemma_non_empty_clean(parts: Seq<Seq<char>>)
    ensures
        forall|i: int|
            0 <= i < non_empty(parts).len() ==> {
                &&& (#[trigger] non_empty(parts)[i]).len() > 0
                &&& parts.contains(non_empty(parts)[i])
            },
    decreases parts.len(),
{
    if parts.len() > 0 {
        let head = parts.drop_last();
        lemma_non_empty_clean(head);
        assert forall|i: int| 0 <= i < non_empty(parts).len() implies {
            &&& (#[trigger] non_empty(parts)[i]).len() > 0
            &&& parts.contains(non_empty(parts)[i])
        } by {
            let p = non_empty(parts)[i];
            if i < non_empty(head).len() {
                assert(p == non_empty(head)[i]);
                let k = choose|k: int| 0 <= k < head.len() && head[k] == p;
                assert(parts[k] == p);
            } else {
                assert(parts[parts.len() - 1] == p);
            }
        }
    }
}

/// Words joined with blanks have white space neither at an end nor twice in a row, and none but
/// blanks.
pub proof fn lemma_joined_tidy(parts: Seq<Seq<char>>)
    requires
        forall|i: int| 0 <= i < parts.len() ==> (#[trigger] parts[i]).len() > 0,
        forall|i: int, j: int|
            0 <= i < parts.len() && 0 <= j < parts[i].len() ==> !is_white(#[trigger] parts[i][j]),
    ensures
        ({
            let s = joined(parts, seq![' ']);
            &&& s.len() > 0 ==> !is_white(s[0]) && !is_white(s.last())
            &&& parts.len() > 0 ==> s.len() > 0
            &&& forall|i: int|
                0 <= i < s.len() && is_white(#[trigger] s[i]) ==> s[i] == ' ' && i + 1 < s.len()
                    && !is_white(s[i + 1])
        }),
    decreases parts.len(),
{
    if parts.len() > 0 {
        let last = parts.last();
        let head = parts.drop_last();
        let s = joined(parts, seq![' ']);
        assert(parts[parts.len() - 1].len() > 0);
        assert forall|j: int| 0 <= j < last.len() implies !is_white(#[trigger] last[j]) by {
            assert(!is_white(parts[parts.len() - 1][j]));
        }
        if parts.len() > 1 {
            assert forall|i: int| 0 <= i < head.len() implies (#[trigger] head[i]).len() > 0 by {
                assert(head[i] == parts[i]);
            }
            assert forall|i: int, j: int|
                0 <= i < head.len() && 0 <= j < head[i].len() implies !is_white(
                #[trigger] head[i][j],
            ) by {
                assert(head[i] == parts[i]);
                assert(!is_white(parts[i][j]));
            }
            lemma_joined_tidy(head);
            let before = joined(head, seq![' ']);
            assert(s == before + seq![' '] + last);
            assert forall|i: int| 0 <= i < s.len() && is_white(#[trigger] s[i]) implies s[i] == ' '
                && i + 1 < s.len() && !is_white(s[i + 1]) by {
                if i < before.len() {
                    assert(s[i] == before[i]);
                    assert(i + 1 < before.len());
                    assert(s[i + 1] == before[i + 1]);
                } else if i == before.len() {
                    assert(s[i + 1] == last[0]);
                } else {
                    assert(s[i] == last[i - before.len() - 1]);
                }
            }
            assert(s[0] == before[0]);
            assert(s.last() == last[last.len() - 1]);
        }
    }
}

/// Behind a text that does not end with a slash, slashes are taken off.
pub proof fn lemma_slashes_off(text: Seq<char>, slashes: Seq<char>)
    requires
        text.len() > 0,
        text.last() != '/',
        forall|i: int| 0 <= i < slashes.len() ==> #[trigger] slashes[i] == '/',
    ensures
        trim_parts(text + slashes, "/"@) == text,
    decreases slashes.len(),
{
    reveal_strlit("/");
    let whole = text + slashes;
    if slashes.len() == 0 {
        assert(whole =~= text);
        assert(whole.subrange(whole.len() - 1, whole.len() as int)[0] == text.last());
    } else {
        let head = slashes.drop_last();
        assert(slashes[slashes.len() - 1] == '/');
        assert(whole.subrange(whole.len() - 1, whole.len() as int) =~= "/"@);
        assert(whole.take(whole.len() - 1) =~= text + head);
        lemma_slashes_off(text, head);
    }
}

/// Contracts speak of the texts of strings one for one, and of that of an optional string where there
/// is one.
pub proof fn law_texts(v: Seq<String>, i: int, o: Option<String>)
    ensures
        texts(v).len() == v.len(),
        0 <= i < v.len() ==> texts(v)[i] == v[i]@,
        opt_text(o) is Some <==> o is Some,
        o matches Some(s) ==> opt_text(o) == Some(s@),
{
}

} // verus!
