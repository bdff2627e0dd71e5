//! Strings as sequences of characters: the comparisons, searches and
//! conversions that the rest of the library is stated over.

use vstd::prelude::*;

verus! {

/// `String::push` appends the character at the end.
pub assume_specification[ String::push ](s: &mut String, c: char)
    ensures
        final(s)@ == old(s)@.push(c),
;

/// `<str as PartialEq>::eq` tells whether the two strings hold the same characters.
pub assume_specification[ <str as PartialEq<str>>::eq ](a: &str, b: &str) -> (r: bool)
    ensures
        r == (a@ == b@),
;

/// Whether `a` and `b` hold the same characters.
pub fn same(a: &str, b: &str) -> (r: bool)
    ensures
        r == (a@ == b@),
{
    *a == *b
}

/// The characters of `s`.
pub fn to_chars(s: &str) -> (r: Vec<char>)
    ensures
        r@ == s@,
{
    let mut out: Vec<char> = Vec::new();
    for c in it: s.chars()
        invariant
            out@ == it.seq().take(it.index()),
            it.seq() == s@,
    {
        out.push(c);
    }
    assert(out@ =~= s@);
    out
}

/// The decimal digit `d`.
pub open spec fn digit(d: nat) -> char {
    (0x30 + d) as char
}

/// `n` in decimal.
pub open spec fn decimal_of(n: nat) -> Seq<char>
    decreases n,
{
    if n < 10 {
        seq![digit(n)]
    } else {
        decimal_of(n / 10).push(digit(n % 10))
    }
}

/// `n` in decimal.
pub fn decimal(n: usize) -> (r: String)
    ensures
        r@ == decimal_of(n as nat),
    decreases n,
{
    let mut out = if n < 10 {
        String::new()
    } else {
        decimal(n / 10)
    };
    let d: u8 = (n % 10) as u8;
    out.push((0x30 + d) as char);
    assert(n < 10 ==> out@ =~= seq![digit(n as nat)]);
    out
}

/// `n` in decimal, with its sign where it is negative.
pub open spec fn signed_decimal_of(n: int) -> Seq<char> {
    if n < 0 {
        seq!['-'] + decimal_of((-n) as nat)
    } else {
        decimal_of(n as nat)
    }
}

fn decimal_u64(n: u64) -> (r: String)
    ensures
        r@ == decimal_of(n as nat),
    decreases n,
{
    let mut out = if n < 10 {
        String::new()
    } else {
        decimal_u64(n / 10)
    };
    let d: u8 = (n % 10) as u8;
    out.push((0x30 + d) as char);
    assert(n < 10 ==> out@ =~= seq![digit(n as nat)]);
    out
}

/// `n` in decimal, with its sign where it is negative.
pub fn signed_decimal(n: i64) -> (r: String)
    ensures
        r@ == signed_decimal_of(n as int),
{
    if n < 0 {
        let magnitude: u64 = if n == i64::MIN {
            0x8000_0000_0000_0000
        } else {
            (-n) as u64
        };
        let mut out = String::new();
        out.push('-');
        out.append(decimal_u64(magnitude).as_str());
        assert(out@ =~= seq!['-'] + decimal_of((-n) as nat));
        out
    } else {
        decimal_u64(n as u64)
    }
}

/// `a` comes before `b` in the lexicographic order of their characters.
pub open spec fn comes_before(a: Seq<char>, b: Seq<char>) -> bool
    decreases a.len(),
{
    if b.len() == 0 {
        false
    } else if a.len() == 0 {
        true
    } else if a[0] != b[0] {
        (a[0] as u32) < (b[0] as u32)
    } else {
        comes_before(a.drop_first(), b.drop_first())
    }
}

/// Whether `a` comes before `b`.
pub fn is_before(a: &str, b: &str) -> (r: bool)
    ensures
        r == comes_before(a@, b@),
{
    let x = to_chars(a);
    let y = to_chars(b);
    let mut i: usize = 0;
    assert(x@.skip(0) =~= a@);
    assert(y@.skip(0) =~= b@);
    while i < x.len() && i < y.len() && x[i] == y[i]
        invariant
            i <= x.len(),
            i <= y.len(),
            x@ == a@,
            y@ == b@,
            comes_before(a@, b@) == comes_before(x@.skip(i as int), y@.skip(i as int)),
        decreases x.len() - i,
    {
        assert(x@.skip(i as int).drop_first() =~= x@.skip(i + 1));
        assert(y@.skip(i as int).drop_first() =~= y@.skip(i + 1));
        i = i + 1;
    }
    if i == y.len() {
        false
    } else if i == x.len() {
        true
    } else {
        assert(x@.skip(i as int)[0] == x@[i as int]);
        (x[i] as u32) < (y[i] as u32)
    }
}

/// Nothing comes before itself.
pub proof fn lemma_comes_before_irreflexive(a: Seq<char>)
    ensures
        !comes_before(a, a),
    decreases a.len(),
{
    if a.len() > 0 {
        lemma_comes_before_irreflexive(a.drop_first());
    }
}

/// The order is transitive.
pub proof fn lemma_comes_before_transitive(a: Seq<char>, b: Seq<char>, c: Seq<char>)
    requires
        comes_before(a, b),
        comes_before(b, c),
    ensures
        comes_before(a, c),
    decreases a.len(),
{
    if a.len() > 0 && b.len() > 0 && c.len() > 0 && a[0] == b[0] && b[0] == c[0] {
        lemma_comes_before_transitive(a.drop_first(), b.drop_first(), c.drop_first());
    }
}

/// Of two different strings one comes before the other.
pub proof fn lemma_comes_before_total(a: Seq<char>, b: Seq<char>)
    ensures
        comes_before(a, b) || comes_before(b, a) || a == b,
    decreases a.len(),
{
    if a.len() > 0 && b.len() > 0 && a[0] == b[0] {
        lemma_comes_before_total(a.drop_first(), b.drop_first());
        if a.drop_first() == b.drop_first() {
            assert(a =~= seq![a[0]] + a.drop_first());
            assert(b =~= seq![b[0]] + b.drop_first());
        }
    } else if a.len() == 0 && b.len() == 0 {
        assert(a =~= b);
    } else if a.len() > 0 && b.len() > 0 {
        vstd::utf8::char_u32_cast(a[0], a[0] as u32);
        vstd::utf8::char_u32_cast(b[0], b[0] as u32);
    }
}

/// An ASCII capital in lower case, every other character as it is.
pub open spec fn lower_char(c: char) -> char {
    if 'A' <= c <= 'Z' {
        (c as u8 + 32) as char
    } else {
        c
    }
}

/// The string with ASCII capitals in lower case.
pub open spec fn lowered(s: Seq<char>) -> Seq<char> {
    Seq::new(s.len(), |i: int| lower_char(s[i]))
}

/// `s` with ASCII capitals in lower case.
pub fn ascii_lower(s: &str) -> (r: String)
    ensures
        r@ == lowered(s@),
{
    let chars = to_chars(s);
    let mut out = String::new();
    let mut i: usize = 0;
    while i < chars.len()
        invariant
            i <= chars.len(),
            chars@ == s@,
            out@ == lowered(s@).take(i as int),
        decreases chars.len() - i,
    {
        let c = chars[i];
        if 'A' <= c && c <= 'Z' {
            out.push((c as u8 + 32) as char);
        } else {
            out.push(c);
        }
        i = i + 1;
        assert(out@ =~= lowered(s@).take(i as int));
    }
    assert(lowered(s@).take(i as int) =~= lowered(s@));
    out
}

/// The characters with Unicode's `White_Space` property.
pub open spec fn is_white(c: char) -> bool {
    let v = c as u32;
    ||| 0x09 <= v <= 0x0D
    ||| v == 0x20
    ||| v == 0x85
    ||| v == 0xA0
    ||| v == 0x1680
    ||| 0x2000 <= v <= 0x200A
    ||| v == 0x2028
    ||| v == 0x2029
    ||| v == 0x202F
    ||| v == 0x205F
    ||| v == 0x3000
}

fn white(c: char) -> (r: bool)
    ensures
        r == is_white(c),
{
    let v: u32 = c as u32;
    (0x09 <= v && v <= 0x0D) || v == 0x20 || v == 0x85 || v == 0xA0 || v == 0x1680 || (0x2000 <= v
        && v <= 0x200A) || v == 0x2028 || v == 0x2029 || v == 0x202F || v == 0x205F || v == 0x3000
}

/// The string without the white space at its start and at its end.
pub open spec fn trimmed(s: Seq<char>) -> Seq<char>
    decreases s.len(),
{
    if s.len() == 0 {
        s
    } else if is_white(s[0]) {
        trimmed(s.drop_first())
    } else if is_white(s.last()) {
        trimmed(s.drop_last())
    } else {
        s
    }
}

/// `s` without the white space at its start and at its end.
pub fn trim(s: &str) -> (r: String)
    ensures
        r@ == trimmed(s@),
{
    let chars = to_chars(s);
    let mut from: usize = 0;
    let mut to: usize = chars.len();
    assert(chars@.subrange(0, to as int) =~= s@);
    while from < to && white(chars[from])
        invariant
            from <= to == chars.len(),
            trimmed(s@) == trimmed(chars@.subrange(from as int, to as int)),
        decreases to - from,
    {
        assert(chars@.subrange(from as int, to as int).drop_first() =~= chars@.subrange(
            from + 1,
            to as int,
        ));
        from = from + 1;
    }
    while from < to && white(chars[to - 1])
        invariant
            from <= to <= chars.len(),
            from < to ==> !is_white(chars@[from as int]),
            trimmed(s@) == trimmed(chars@.subrange(from as int, to as int)),
        decreases to - from,
    {
        assert(chars@.subrange(from as int, to as int).drop_last() =~= chars@.subrange(
            from as int,
            to - 1,
        ));
        to = to - 1;
    }
    copy_range(&chars, from, to)
}

/// The string that holds the characters from `from` up to `to`.
pub(crate) fn copy_range(chars: &Vec<char>, from: usize, to: usize) -> (r: String)
    requires
        from <= to <= chars.len(),
    ensures
        r@ == chars@.subrange(from as int, to as int),
{
    let mut out = String::new();
    let mut i: usize = from;
    while i < to
        invariant
            from <= i <= to <= chars.len(),
            out@ == chars@.subrange(from as int, i as int),
        decreases to - i,
    {
        out.push(chars[i]);
        i = i + 1;
        assert(out@ =~= chars@.subrange(from as int, i as int));
    }
    out
}

/// The position of the first `c`, or the length.
pub open spec fn first_at(s: Seq<char>, c: char) -> nat
    decreases s.len(),
{
    if s.len() == 0 || s[0] == c {
        0
    } else {
        1 + first_at(s.drop_first(), c)
    }
}

/// The pieces of `s` between the characters `c`.
pub open spec fn pieces(s: Seq<char>, c: char) -> Seq<Seq<char>>
    decreases s.len(),
{
    let at = first_at(s, c) as int;
    if 0 <= at < s.len() {
        seq![s.take(at)] + pieces(s.skip(at + 1), c)
    } else {
        seq![s]
    }
}

/// The position of the first `c` is within the string.
pub proof fn lemma_first_at(s: Seq<char>, c: char, at: int)
    requires
        0 <= at <= s.len(),
        forall|k: int| 0 <= k < at ==> s[k] != c,
        at == s.len() || s[at] == c,
    ensures
        first_at(s, c) == at,
    decreases s.len(),
{
    if at > 0 {
        assert(s[0] != c);
        assert forall|k: int| 0 <= k < at - 1 implies s.drop_first()[k] != c by {
            assert(s.drop_first()[k] == s[k + 1]);
        }
        lemma_first_at(s.drop_first(), c, at - 1);
    }
}

/// The characters that each string holds.
pub open spec fn views(strings: Seq<String>) -> Seq<Seq<char>> {
    Seq::new(strings.len(), |i: int| strings[i]@)
}

/// The pieces of `s` between the characters `c`.
pub fn split(s: &str, c: char) -> (r: Vec<String>)
    ensures
        views(r@) == pieces(s@, c),
        r.len() > 0,
{
    let chars = to_chars(s);
    let mut out: Vec<String> = Vec::new();
    let mut from: usize = 0;
    let mut i: usize = 0;
    assert(chars@.skip(0) =~= s@);
    assert(views(out@) + pieces(chars@.skip(0), c) =~= pieces(s@, c));
    while i < chars.len()
        invariant
            from <= i <= chars.len(),
            chars@ == s@,
            forall|k: int| from <= k < i ==> chars@[k] != c,
            views(out@) + pieces(chars@.skip(from as int), c) == pieces(s@, c),
        decreases chars.len() - i,
    {
        if chars[i] == c {
            let ghost rest = chars@.skip(from as int);
            let ghost before = out@;
            proof {
                assert forall|k: int| 0 <= k < i - from implies rest[k] != c by {
                    assert(rest[k] == chars@[from + k]);
                }
                lemma_first_at(rest, c, i - from);
                assert(rest.take(i - from) =~= chars@.subrange(from as int, i as int));
                assert(rest.skip(i - from + 1) =~= chars@.skip(i + 1));
            }
            out.push(copy_range(&chars, from, i));
            proof {
                assert(views(out@) =~= views(before).push(rest.take(i - from)));
                assert(views(out@) + pieces(chars@.skip(i + 1), c) =~= views(before) + pieces(
                    rest,
                    c,
                ));
            }
            from = i + 1;
        }
        i = i + 1;
    }
    proof {
        let rest = chars@.skip(from as int);
        assert forall|k: int| 0 <= k < rest.len() implies rest[k] != c by {
            assert(rest[k] == chars@[from + k]);
        }
        lemma_first_at(rest, c, rest.len() as int);
        assert(rest =~= chars@.subrange(from as int, chars@.len() as int));
    }
    let ghost before = out@;
    let end: usize = chars.len();
    out.push(copy_range(&chars, from, end));
    assert(views(out@) =~= views(before) + pieces(chars@.skip(from as int), c));
    out
}

/// The strings with `separator` between them.
pub open spec fn joined(parts: Seq<Seq<char>>, separator: Seq<char>) -> Seq<char>
    decreases parts.len(),
{
    if parts.len() == 0 {
        Seq::empty()
    } else if parts.len() == 1 {
        parts[0]
    } else {
        joined(parts.drop_last(), separator) + separator + parts.last()
    }
}

/// The strings with `separator` between them.
pub fn join(parts: &Vec<String>, separator: &str) -> (r: String)
    ensures
        r@ == joined(views(parts@), separator@),
{
    let mut out = String::new();
    let mut i: usize = 0;
    while i < parts.len()
        invariant
            i <= parts.len(),
            out@ == joined(views(parts@).take(i as int), separator@),
        decreases parts.len() - i,
    {
        assert(views(parts@).take(i + 1).drop_last() =~= views(parts@).take(i as int));
        if i > 0 {
            out.append(separator);
        }
        out.append(parts[i].as_str());
        i = i + 1;
        assert(i == 1 ==> out@ =~= parts@[0]@);
    }
    assert(views(parts@).take(i as int) =~= views(parts@));
    out
}

/// What `s` is in quotes, as the standard library shows strings when debugging.
pub uninterp spec fn quoted_of(s: Seq<char>) -> Seq<char>;

/// The `Debug` form of `str`: the string in quotes, with what cannot be shown
/// escaped. It depends on the string alone.
#[verifier::external_body]
pub(crate) fn quoted(s: &str) -> (r: String)
    ensures
        r@ == quoted_of(s@),
{
    format!("{s:?}")
}

/// The number that decimal digits write.
pub open spec fn number_in(digits: Seq<char>) -> int
    decreases digits.len(),
{
    if digits.len() == 0 {
        0
    } else {
        10 * number_in(digits.drop_last()) + (digits.last() as u32 - '0' as u32)
    }
}

/// A number is written with its decimal digits, without leading zeros, and can
/// be read back from them. A negative one has a sign before them.
pub proof fn law_decimals_are_read_back(n: nat)
    ensures
        number_in(decimal_of(n)) == n,
        decimal_of(n).len() > 0,
        forall|i: int|
            0 <= i < decimal_of(n).len() ==> '0' <= #[trigger] decimal_of(n)[i] <= '9',
        decimal_of(n)[0] == '0' ==> n == 0,
        signed_decimal_of(n as int) == decimal_of(n),
        n > 0 ==> signed_decimal_of(-(n as int)) == seq!['-'] + decimal_of(n),
    decreases n,
{
    if n < 10 {
        assert(decimal_of(n).drop_last() =~= Seq::empty());
        assert(number_in(Seq::<char>::empty()) == 0);
    } else {
        law_decimals_are_read_back(n / 10);
        assert(decimal_of(n).drop_last() =~= decimal_of(n / 10));
        assert forall|i: int| 0 <= i < decimal_of(n).len() implies '0' <= #[trigger] decimal_of(
            n,
        )[i] <= '9' by {
            if i < decimal_of(n / 10).len() {
                assert(decimal_of(n)[i] == decimal_of(n / 10)[i]);
            }
        }
        assert(decimal_of(n)[0] == decimal_of(n / 10)[0]);
    }
}

/// The order of strings is that of a dictionary: what two strings have in
/// common at their start does not count, the first difference does, and a
/// string comes before those that go on after it.
pub proof fn law_order_is_that_of_a_dictionary(start: Seq<char>, a: Seq<char>, b: Seq<char>)
    ensures
        comes_before(start + a, start + b) == comes_before(a, b),
        b.len() > 0 ==> comes_before(start, start + b),
        a.len() > 0 && b.len() > 0 && (a[0] as u32) < (b[0] as u32) ==> comes_before(a, b),
        a.len() > 0 && b.len() > 0 && (a[0] as u32) > (b[0] as u32) ==> !comes_before(a, b),
        !comes_before(a, Seq::empty()),
    decreases start.len(),
{
    if start.len() == 0 {
        assert(start + a =~= a);
        assert(start + b =~= b);
        assert(start =~= Seq::empty());
    } else {
        let rest = start.drop_first();
        law_order_is_that_of_a_dictionary(rest, a, b);
        assert((start + a).drop_first() =~= rest + a);
        assert((start + b).drop_first() =~= rest + b);
    }
}

/// Lower case changes ASCII capitals to their small letters and nothing else.
pub proof fn law_only_capitals_are_lowered(s: Seq<char>, i: int)
    requires
        0 <= i < s.len(),
    ensures
        lowered(s).len() == s.len(),
        'A' <= s[i] <= 'Z' ==> lowered(s)[i] as u32 == s[i] as u32 + 32,
        !('A' <= s[i] <= 'Z') ==> lowered(s)[i] == s[i],
{
}

/// All but the characters from `from` to `to` are such that `gone` holds.
pub open spec fn is_core(s: Seq<char>, gone: spec_fn(char) -> bool, from: int, to: int) -> bool {
    &&& 0 <= from <= to <= s.len()
    &&& forall|k: int| 0 <= k < from ==> gone(#[trigger] s[k])
    &&& forall|k: int| to <= k < s.len() ==> gone(#[trigger] s[k])
}

spec fn trimmed_by(s: Seq<char>, gone: spec_fn(char) -> bool) -> Seq<char>
    decreases s.len(),
{
    if s.len() == 0 {
        s
    } else if gone(s[0]) {
        trimmed_by(s.drop_first(), gone)
    } else if gone(s.last()) {
        trimmed_by(s.drop_last(), gone)
    } else {
        s
    }
}

proof fn lemma_core_after_front(s: Seq<char>, gone: spec_fn(char) -> bool, from: int, to: int)
    requires
        s.len() > 0,
        gone(s[0]),
        is_core(s.drop_first(), gone, from, to),
    ensures
        is_core(s, gone, from + 1, to + 1),
        s.drop_first().subrange(from, to) == s.subrange(from + 1, to + 1),
{
    let rest = s.drop_first();
    assert(rest.subrange(from, to) =~= s.subrange(from + 1, to + 1));
    assert forall|k: int| 0 <= k < from + 1 implies gone(#[trigger] s[k]) by {
        if k > 0 {
            assert(gone(rest[k - 1]));
        }
    }
    assert forall|k: int| to + 1 <= k < s.len() implies gone(#[trigger] s[k]) by {
        assert(gone(rest[k - 1]));
    }
}

proof fn lemma_core_before_back(s: Seq<char>, gone: spec_fn(char) -> bool, from: int, to: int)
    requires
        s.len() > 0,
        gone(s.last()),
        is_core(s.drop_last(), gone, from, to),
    ensures
        is_core(s, gone, from, to),
        s.drop_last().subrange(from, to) == s.subrange(from, to),
{
    let rest = s.drop_last();
    assert(rest.subrange(from, to) =~= s.subrange(from, to));
    assert forall|k: int| 0 <= k < from implies gone(#[trigger] s[k]) by {
        assert(gone(rest[k]));
    }
    assert forall|k: int| to <= k < s.len() implies gone(#[trigger] s[k]) by {
        if k < rest.len() {
            assert(gone(rest[k]));
        }
    }
}

proof fn lemma_trimmed_by(s: Seq<char>, gone: spec_fn(char) -> bool) -> (r: (int, int))
    ensures
        trimmed_by(s, gone).len() > 0 ==> !gone(trimmed_by(s, gone)[0]) && !gone(
            trimmed_by(s, gone).last(),
        ),
        is_core(s, gone, r.0, r.1),
        trimmed_by(s, gone) == s.subrange(r.0, r.1),
    decreases s.len(),
{
    if s.len() == 0 {
        assert(s.subrange(0, 0) =~= s);
        (0, 0)
    } else if gone(s[0]) {
        let (from, to) = lemma_trimmed_by(s.drop_first(), gone);
        lemma_core_after_front(s, gone, from, to);
        (from + 1, to + 1)
    } else if gone(s.last()) {
        let (from, to) = lemma_trimmed_by(s.drop_last(), gone);
        lemma_core_before_back(s, gone, from, to);
        (from, to)
    } else {
        assert(s.subrange(0, s.len() as int) =~= s);
        (0, s.len() as int)
    }
}

/// The test for white space.
pub open spec fn white_space() -> spec_fn(char) -> bool {
    |c: char| is_white(c)
}

proof fn lemma_trimmed_of_white_space(s: Seq<char>)
    ensures
        trimmed(s) == trimmed_by(s, white_space()),
    decreases s.len(),
{
    if s.len() > 0 {
        lemma_trimmed_of_white_space(s.drop_first());
        lemma_trimmed_of_white_space(s.drop_last());
    }
}

/// Trimming takes white space off both ends, and nothing else.
pub proof fn law_trimming_takes_white_space_off(s: Seq<char>)
    ensures
        trimmed(s).len() > 0 ==> !white_space()(trimmed(s)[0]) && !white_space()(
            trimmed(s).last(),
        ),
        exists|from: int, to: int| #[trigger]
            is_core(s, white_space(), from, to) && trimmed(s) == s.subrange(from, to),
{
    lemma_trimmed_of_white_space(s);
    let (from, to) = lemma_trimmed_by(s, white_space());
    assert(is_core(s, white_space(), from, to));
}

proof fn lemma_joined_from_the_front(first: Seq<char>, rest: Seq<Seq<char>>, separator: Seq<char>)
    requires
        rest.len() > 0,
    ensures
        joined(seq![first] + rest, separator) == first + separator + joined(rest, separator),
    decreases rest.len(),
{
    let all = seq![first] + rest;
    assert(all.last() == rest.last());
    assert(all.drop_last() =~= seq![first] + rest.drop_last());
    assert(joined(all, separator) == joined(all.drop_last(), separator) + separator + rest.last());
    if rest.len() == 1 {
        assert(rest.drop_last() =~= Seq::empty());
        assert(all.drop_last() =~= seq![first]);
        assert(joined(seq![first], separator) == first);
        assert(joined(rest, separator) == rest.last());
    } else {
        let before = rest.drop_last();
        lemma_joined_from_the_front(first, before, separator);
        assert(joined(rest, separator) == joined(before, separator) + separator + rest.last());
        assert((first + separator + joined(before, separator)) + separator + rest.last() =~= first
            + separator + (joined(before, separator) + separator + rest.last()));
    }
}

/// Splitting loses nothing: the pieces with the separator between them are the
/// string, and no piece has a separator in it.
pub proof fn law_pieces_make_up_the_string(s: Seq<char>, c: char)
    ensures
        joined(pieces(s, c), seq![c]) == s,
        pieces(s, c).len() > 0,
        forall|i: int|
            0 <= i < pieces(s, c).len() ==> !(#[trigger] pieces(s, c)[i]).contains(c),
    decreases s.len(),
{
    let at = first_at(s, c) as int;
    lemma_first_is_first(s, c);
    if at < s.len() {
        let rest = s.skip(at + 1);
        law_pieces_make_up_the_string(rest, c);
        lemma_joined_from_the_front(s.take(at), pieces(rest, c), seq![c]);
        assert(s.take(at) + seq![c] + rest =~= s);
        assert forall|i: int| 0 <= i < pieces(s, c).len() implies !(#[trigger] pieces(
            s,
            c,
        )[i]).contains(c) by {
            if i > 0 {
                assert(pieces(s, c)[i] == pieces(rest, c)[i - 1]);
            } else {
                assert(pieces(s, c)[0] == s.take(at));
            }
        }
    } else {
        assert(s.take(at) =~= s);
        assert(pieces(s, c) =~= seq![s]);
    }
}

proof fn lemma_first_is_first(s: Seq<char>, c: char)
    ensures
        first_at(s, c) <= s.len(),
        first_at(s, c) < s.len() ==> s[first_at(s, c) as int] == c,
        !s.take(first_at(s, c) as int).contains(c),
    decreases s.len(),
{
    if s.len() > 0 && s[0] != c {
        let rest = s.drop_first();
        lemma_first_is_first(rest, c);
        let at = first_at(s, c) as int;
        assert(s.take(at) =~= seq![s[0]] + rest.take(at - 1));
        if s.take(at).contains(c) {
            let k = s.take(at).index_of(c);
            assert(rest.take(at - 1)[k - 1] == c);
        }
    }
}

/// A piece that is added behind a separator is the last piece.
pub proof fn law_added_piece_is_the_last(s: Seq<char>, c: char, piece: Seq<char>)
    requires
        !piece.contains(c),
    ensures
        pieces(s + seq![c] + piece, c) == pieces(s, c).push(piece),
        pieces(piece, c) == seq![piece],
    decreases s.len(),
{
    let all = s + seq![c] + piece;
    let at = first_at(s, c) as int;
    lemma_first_is_first(s, c);
    assert forall|k: int| 0 <= k < piece.len() implies piece[k] != c by {
        assert(piece.contains(piece[k]));
    }
    lemma_first_at(piece, c, piece.len() as int);
    assert forall|k: int| 0 <= k < at implies all[k] != c by {
        assert(s.take(at)[k] == s[k]);
        assert(s.take(at).contains(s[k]));
    }
    assert(all[at] == c);
    lemma_first_at(all, c, at);
    assert(all.take(at) =~= s.take(at));
    if at < s.len() {
        let rest = s.skip(at + 1);
        assert(all.skip(at + 1) =~= rest + seq![c] + piece);
        law_added_piece_is_the_last(rest, c, piece);
        assert(seq![s.take(at)] + pieces(rest, c).push(piece) =~= pieces(s, c).push(piece));
    } else {
        assert(all.skip(at + 1) =~= piece);
        assert(s.take(at) =~= s);
        assert(pieces(s, c) =~= seq![s]);
        assert(pieces(piece, c) =~= seq![piece]);
        assert(pieces(all, c) == seq![all.take(at)] + pieces(all.skip(at + 1), c));
        assert(pieces(all, c) =~= pieces(s, c).push(piece));
    }
}

/// Spaces, tabs and line breaks are white space; what can be seen in ASCII is not.
pub proof fn law_ascii_white_space(c: char)
    ensures
        c as u32 == 0x20 || 0x09 <= c as u32 <= 0x0D ==> is_white(c),
        0x21 <= c as u32 <= 0x7E ==> !is_white(c),
{
}

/// `part` stands somewhere in `s`.
pub open spec fn has_part(s: Seq<char>, part: Seq<char>) -> bool {
    exists|before: Seq<char>, after: Seq<char>| #[trigger] (before + part + after) == s
}

/// What is put together of three strings has each of them in it.
pub proof fn lemma_has_parts(a: Seq<char>, b: Seq<char>, c: Seq<char>)
    ensures
        has_part(a + b + c, b),
        has_part(a + b, b),
        has_part(a + b, a),
{
    let none = Seq::<char>::empty();
    assert(a + b + none =~= a + b);
    assert(none + a + b =~= a + b);
}

} // verus!
