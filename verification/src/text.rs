//! Text as sequences of characters: trimming, splitting, letter case and numbers.
use vstd::prelude::*;
use vstd::string::*;
use vstd::utf8::*;

verus! {

/// `String::push` appends one character.
pub assume_specification[ String::push ](s: &mut String, c: char)
    ensures
        final(s)@ == old(s)@.push(c),
;

/// What `str::to_lowercase` returns: the Unicode lower case of the text.
pub uninterp spec fn lowercase(s: Seq<char>) -> Seq<char>;

/// What `str::to_uppercase` returns: the Unicode upper case of the text.
pub uninterp spec fn uppercase(s: Seq<char>) -> Seq<char>;

/// The lower case of an ASCII character; any other character is kept.
pub open spec fn ascii_lower(c: char) -> char {
    if 'A' <= c <= 'Z' {
        (c as u32 + 32) as char
    } else {
        c
    }
}

/// The upper case of an ASCII character; any other character is kept.
pub open spec fn ascii_upper(c: char) -> char {
    if 'a' <= c <= 'z' {
        (c as u32 - 32) as char
    } else {
        c
    }
}

/// Whether `lower` treats the slashes and backslashes of `s` as the lower case of `s` does: what
/// stands before one is put in lower case by itself, the slash is kept, and something follows it
/// just when something did before.
pub open spec fn lowered_around_slashes(s: Seq<char>, lower: Seq<char>) -> bool {
    forall|i: int|
        #![trigger lowercase(s.take(i))]
        0 <= i < s.len() && (s[i] == '/' || s[i] == '\\') ==> {
            &&& lowercase(s.take(i)).push(s[i]).is_prefix_of(lower)
            &&& lower.len() == lowercase(s.take(i)).len() + 1 <==> i + 1 == s.len()
        }
}

/// `str::to_lowercase` depends on the text alone, and on ASCII text it maps the letters `A` to
/// `Z` and nothing else. A slash or a backslash is kept, and what stands before it is put in lower
/// case by itself: no letter but the sigma depends on its surroundings, and that one only on
/// whether its word ends, as it does before a slash.
pub assume_specification[ str::to_lowercase ](s: &str) -> (r: String)
    ensures
        r@ == lowercase(s@),
        is_ascii_chars(s@) ==> r@ == s@.map_values(|c: char| ascii_lower(c)),
        lowered_around_slashes(s@, r@),
;

/// `str::to_uppercase` depends on the text alone, and on ASCII text it maps the letters `a` to
/// `z` and nothing else.
pub assume_specification[ str::to_uppercase ](s: &str) -> (r: String)
    ensures
        r@ == uppercase(s@),
        is_ascii_chars(s@) ==> r@ == s@.map_values(|c: char| ascii_upper(c)),
;

/// The characters with the Unicode property `White_Space`.
pub open spec fn is_white_space(c: char) -> bool {
    ||| '\u{9}' <= c <= '\u{d}'
    ||| c == ' '
    ||| c == '\u{85}'
    ||| c == '\u{a0}'
    ||| c == '\u{1680}'
    ||| '\u{2000}' <= c <= '\u{200a}'
    ||| c == '\u{2028}'
    ||| c == '\u{2029}'
    ||| c == '\u{202f}'
    ||| c == '\u{205f}'
    ||| c == '\u{3000}'
}

/// `s` without the white space at its two ends.
pub open spec fn trimmed(s: Seq<char>) -> Seq<char>
    decreases s.len(),
{
    if s.len() == 0 {
        s
    } else if is_white_space(s[0]) {
        trimmed(s.drop_first())
    } else if is_white_space(s.last()) {
        trimmed(s.drop_last())
    } else {
        s
    }
}

/// The part of `s` before its first space; all of `s` if it has none.
pub open spec fn first_word(s: Seq<char>) -> Seq<char> {
    match s.index_of_first(' ') {
        Some(i) => s.take(i),
        None => s,
    }
}

/// The part of `s` after its first space, if it has one.
pub open spec fn after_first_word(s: Seq<char>) -> Option<Seq<char>> {
    match s.index_of_first(' ') {
        Some(i) => Some(s.skip(i + 1)),
        None => None,
    }
}

/// `s` with a slash for every backslash.
pub open spec fn forward_slashes(s: Seq<char>) -> Seq<char> {
    s.map_values(|c: char| if c == '\\' { '/' } else { c })
}

/// Whether `s` begins with the character `c`.
pub open spec fn begins_with(s: Seq<char>, c: char) -> bool {
    s.len() > 0 && s[0] == c
}

/// The decimal digit that stands for `d`.
pub open spec fn digit(d: nat) -> char
    recommends
        d < 10,
{
    (48 + d) as char
}

/// `n` in decimal, without leading zeros.
pub open spec fn decimal(n: nat) -> Seq<char>
    decreases n,
{
    if n < 10 {
        seq![digit(n)]
    } else {
        decimal(n / 10).push(digit(n % 10))
    }
}

/// The number that a run of decimal digits stands for.
pub open spec fn number(s: Seq<char>) -> int
    decreases s.len(),
{
    if s.len() == 0 {
        0
    } else {
        number(s.drop_last()) * 10 + (s.last() as int - 48)
    }
}

/// Numbers in decimal, with commas between them.
pub open spec fn comma_separated(numbers: Seq<u8>) -> Seq<char>
    decreases numbers.len(),
{
    if numbers.len() == 0 {
        Seq::empty()
    } else if numbers.len() == 1 {
        decimal(numbers[0] as nat)
    } else {
        comma_separated(numbers.drop_last()).push(',') + decimal(numbers.last() as nat)
    }
}

/// Whether every character of `s` is a decimal digit.
pub open spec fn all_digits(s: Seq<char>) -> bool {
    forall|i: int| 0 <= i < s.len() ==> '0' <= #[trigger] s[i] <= '9'
}

/// `s` with as many spaces in front as bring it to `width` characters.
pub open spec fn right_aligned(s: Seq<char>, width: nat) -> Seq<char> {
    if s.len() < width {
        Seq::new((width - s.len()) as nat, |i: int| ' ') + s
    } else {
        s
    }
}

/// A number is written with decimal digits only, and reading them gives the number back.
pub proof fn law_decimal_reads_back(n: nat)
    ensures
        decimal(n).len() > 0,
        all_digits(decimal(n)),
        number(decimal(n)) == n,
    decreases n,
{
    if n < 10 {
        let s = seq![digit(n)];
        assert(decimal(n) == s);
        assert(s.drop_last() =~= Seq::<char>::empty());
        assert(number(s.drop_last()) == 0);
        assert(s.last() == digit(n));
    } else {
        law_decimal_reads_back(n / 10);
        assert(decimal(n).drop_last() =~= decimal(n / 10));
    }
}

proof fn lemma_digits_after_comma(x: Seq<char>, a: Seq<char>, y: Seq<char>, b: Seq<char>)
    requires
        all_digits(a),
        all_digits(b),
        x.push(',') + a == y.push(',') + b,
    ensures
        x == y,
        a == b,
{
    let s = x.push(',') + a;
    let t = y.push(',') + b;
    assert(s == t);
    assert(s.len() == x.len() + 1 + a.len());
    assert(t.len() == y.len() + 1 + b.len());
    assert(s[x.len() as int] == ',');
    assert(t[y.len() as int] == ',');
    if x.len() < y.len() {
        assert(s[y.len() as int] == a[y.len() - x.len() - 1]);
        assert(false);
    } else if y.len() < x.len() {
        assert(t[x.len() as int] == b[x.len() - y.len() - 1]);
        assert(false);
    }
    assert(x =~= s.take(x.len() as int));
    assert(y =~= t.take(y.len() as int));
    assert(a =~= s.skip(x.len() + 1int));
    assert(b =~= t.skip(y.len() + 1int));
}

/// Numbers with commas between them can be told apart: two lists of the same length that are
/// written in the same way are equal.
pub proof fn law_separated_numbers_read_back(x: Seq<u8>, y: Seq<u8>)
    requires
        x.len() == y.len(),
        comma_separated(x) == comma_separated(y),
    ensures
        x == y,
    decreases x.len(),
{
    if x.len() == 0 {
        assert(x =~= y);
    } else {
        law_decimal_reads_back(x.last() as nat);
        law_decimal_reads_back(y.last() as nat);
        if x.len() > 1 {
            lemma_digits_after_comma(
                comma_separated(x.drop_last()),
                decimal(x.last() as nat),
                comma_separated(y.drop_last()),
                decimal(y.last() as nat),
            );
            law_separated_numbers_read_back(x.drop_last(), y.drop_last());
        } else {
            assert(x.drop_last() =~= y.drop_last());
        }
        assert(x =~= x.drop_last().push(x.last()));
        assert(y =~= y.drop_last().push(y.last()));
    }
}

/// What lies between the first and the last character that is no white space is what trimming leaves.
pub proof fn lemma_trimmed(s: Seq<char>, i: int, j: int)
    requires
        0 <= i <= j <= s.len(),
        forall|k: int| 0 <= k < i ==> is_white_space(#[trigger] s[k]),
        forall|k: int| j <= k < s.len() ==> is_white_space(#[trigger] s[k]),
        i < j ==> !is_white_space(s[i]) && !is_white_space(s[j - 1]),
    ensures
        trimmed(s) == s.subrange(i, j),
    decreases s.len(),
{
    if s.len() == 0 {
        assert(s.subrange(i, j) =~= s);
    } else if i > 0 {
        lemma_trimmed(s.drop_first(), i - 1, j - 1);
        assert(s.drop_first().subrange(i - 1, j - 1) =~= s.subrange(i, j));
    } else if i == j {
        assert(is_white_space(s[0]));
        lemma_trimmed(s.drop_first(), 0, 0);
        assert(s.drop_first().subrange(0, 0) =~= s.subrange(i, j));
    } else if j < s.len() {
        lemma_trimmed(s.drop_last(), i, j);
        assert(s.drop_last().subrange(i, j) =~= s.subrange(i, j));
    } else {
        assert(s.subrange(i, j) =~= s);
    }
}

/// Whether `c` has the Unicode property `White_Space`.
pub fn white_space(c: char) -> (r: bool)
    ensures
        r == is_white_space(c),
{
    ('\u{9}' <= c && c <= '\u{d}') || c == ' ' || c == '\u{85}' || c == '\u{a0}' || c == '\u{1680}'
        || ('\u{2000}' <= c && c <= '\u{200a}') || c == '\u{2028}' || c == '\u{2029}'
        || c == '\u{202f}' || c == '\u{205f}' || c == '\u{3000}'
}

/// The characters of `s`, in order.
pub fn characters(s: &str) -> (v: Vec<char>)
    ensures
        v@ == s@,
{
    let mut v: Vec<char> = Vec::new();
    for c in it: s.chars()
        invariant
            it.seq() == s@,
            v@ == s@.take(it.index()),
    {
        v.push(c);
    }
    v
}

/// Whether two texts are equal.
pub fn same(a: &str, b: &str) -> (r: bool)
    ensures
        r == (a@ == b@),
{
    let x = a.as_bytes();
    let y = b.as_bytes();
    proof {
        encode_utf8_decode_utf8(a@);
        encode_utf8_decode_utf8(b@);
    }
    if x.len() != y.len() {
        return false;
    }
    let mut i: usize = 0;
    while i < x.len()
        invariant
            x@ == encode_utf8(a@),
            y@ == encode_utf8(b@),
            x.len() == y.len(),
            i <= x.len(),
            forall|k: int| 0 <= k < i ==> x@[k] == y@[k],
        decreases x.len() - i,
    {
        if x[i] != y[i] {
            return false;
        }
        i += 1;
    }
    assert(x@ =~= y@);
    true
}

/// Whether `s` begins with the character `c`.
pub fn starts_with(s: &str, c: char) -> (r: bool)
    ensures
        r == begins_with(s@, c),
{
    !s.is_empty() && s.get_char(0) == c
}

/// `s` without the white space at its two ends.
pub fn trim(s: &str) -> (r: &str)
    ensures
        r@ == trimmed(s@),
{
    let v = characters(s);
    let mut i: usize = 0;
    while i < v.len() && white_space(v[i])
        invariant
            i <= v.len(),
            forall|k: int| 0 <= k < i ==> is_white_space(#[trigger] v@[k]),
        decreases v.len() - i,
    {
        i += 1;
    }
    let mut j: usize = v.len();
    while i < j && white_space(v[j - 1])
        invariant
            i <= j <= v.len(),
            forall|k: int| j <= k < v.len() ==> is_white_space(#[trigger] v@[k]),
        decreases j,
    {
        j -= 1;
    }
    proof {
        lemma_trimmed(s@, i as int, j as int);
    }
    s.substring_char(i, j)
}

/// `s` cut at its first space, which neither part keeps.
pub fn split_word(s: &str) -> (r: (&str, Option<&str>))
    ensures
        r.0@ == first_word(s@),
        r.1.deep_view() == after_first_word(s@),
{
    let v = characters(s);
    let mut i: usize = 0;
    proof {
        s@.index_of_first_ensures(' ');
    }
    while i < v.len()
        invariant
            v@ == s@,
            i <= v.len(),
            forall|k: int| 0 <= k < i ==> v@[k] != ' ',
        decreases v.len() - i,
    {
        if v[i] == ' ' {
            proof {
                s@.index_of_first_ensures(' ');
                assert(s@.contains(' '));
                assert(s@.index_of_first(' ') == Some(i as int));
                assert(s@.subrange(0, i as int) =~= s@.take(i as int));
                assert(s@.subrange(i + 1, v.len() as int) =~= s@.skip(i + 1));
            }
            return (s.substring_char(0, i), Some(s.substring_char(i + 1, v.len())));
        }
        i += 1;
    }
    (s, None)
}

/// `s` with a slash for every backslash.
pub fn with_forward_slashes(s: &str) -> (r: String)
    ensures
        r@ == forward_slashes(s@),
{
    let mut r = String::new();
    for c in it: s.chars()
        invariant
            it.seq() == s@,
            r@ == forward_slashes(s@.take(it.index())),
    {
        r.push(if c == '\\' { '/' } else { c });
        assert(r@ =~= forward_slashes(s@.take(it.index() + 1)));
    }
    assert(s@.take(s@.len() as int) =~= s@);
    r
}

/// Appends `n` in decimal to `out`.
pub fn push_decimal(out: &mut String, n: u64)
    ensures
        final(out)@ == old(out)@ + decimal(n as nat),
    decreases n,
{
    if n >= 10 {
        push_decimal(out, n / 10);
    }
    let d: u8 = (n % 10) as u8;
    out.push((48 + d) as char);
    assert(out@ =~= old(out)@ + decimal(n as nat));
}

/// Appends `numbers` in decimal to `out`, with commas between them.
pub fn push_separated(out: &mut String, numbers: &Vec<u8>)
    ensures
        final(out)@ == old(out)@ + comma_separated(numbers@),
{
    let ghost start = out@;
    let mut i: usize = 0;
    assert(out@ =~= start + comma_separated(numbers@.take(0)));
    while i < numbers.len()
        invariant
            i <= numbers.len(),
            out@ == start + comma_separated(numbers@.take(i as int)),
        decreases numbers.len() - i,
    {
        if i > 0 {
            out.push(',');
        }
        push_decimal(out, numbers[i] as u64);
        i += 1;
        assert(numbers@.take(i as int).drop_last() =~= numbers@.take(i - 1));
        assert(out@ =~= start + comma_separated(numbers@.take(i as int)));
    }
    assert(numbers@.take(i as int) =~= numbers@);
}

/// Appends `n` in decimal to `out`, with spaces in front up to `width` characters.
pub fn push_aligned(out: &mut String, n: u64, width: usize)
    ensures
        final(out)@ == old(out)@ + right_aligned(decimal(n as nat), width as nat),
{
    let mut number = String::new();
    push_decimal(&mut number, n);
    assert(number@ =~= decimal(n as nat));
    let ghost start = out@;
    let len = number.as_str().unicode_len();
    let mut i: usize = len;
    while i < width
        invariant
            len == number@.len(),
            len <= i,
            i <= width || i == len,
            out@ == start + Seq::new((i - len) as nat, |k: int| ' '),
        decreases width - i,
    {
        out.push(' ');
        i += 1;
        assert(out@ =~= start + Seq::new((i - len) as nat, |k: int| ' '));
    }
    out.append(number.as_str());
    assert(out@ =~= start + right_aligned(decimal(n as nat), width as nat));
}

} // verus!
