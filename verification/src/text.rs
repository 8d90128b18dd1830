//! Text as sequences of characters.
//!
//! Every function here is stated over the characters of its arguments
//! (`s@`), so that callers can speak of prefixes, suffixes and occurrences
//! without going through the encoding.
use vstd::prelude::*;
use vstd::utf8::{encode_utf8, is_ascii_chars};

verus! {

broadcast use vstd::seq_lib::group_seq_properties;

// ---------------------------------------------------------------------
// Library functions of the standard library
// ---------------------------------------------------------------------

/// The lowercase form of a text, as `str::to_lowercase` computes it.
pub uninterp spec fn unicode_lowercase(s: Seq<char>) -> Seq<char>;

/// The uppercase form of a text, as `str::to_uppercase` computes it.
pub uninterp spec fn unicode_uppercase(s: Seq<char>) -> Seq<char>;

/// `str::to_lowercase`: a text has one lowercase form, and that of an ASCII
/// text replaces each of `A` to `Z` by the small letter.
pub assume_specification[ str::to_lowercase ](s: &str) -> (r: String)
    ensures
        r@ == unicode_lowercase(s@),
        is_ascii_chars(s@) ==> r@ == ascii_lowercase(s@),
;

/// `str::to_uppercase`: a text has one uppercase form, and that of an ASCII
/// text replaces each of `a` to `z` by the capital letter.
pub assume_specification[ str::to_uppercase ](s: &str) -> (r: String)
    ensures
        r@ == unicode_uppercase(s@),
        is_ascii_chars(s@) ==> r@ == ascii_uppercase(s@),
;

/// `String::push`: the character goes to the end of the text.
pub assume_specification[ String::push ](s: &mut String, c: char)
    ensures
        final(s)@ == old(s)@.push(c),
;

// ---------------------------------------------------------------------
// Characters
// ---------------------------------------------------------------------

/// The small letter of an ASCII capital; any other character itself.
pub open spec fn ascii_lower_char(c: char) -> char {
    if 'A' <= c && c <= 'Z' {
        (c as u8 + 32) as char
    } else {
        c
    }
}

/// The ASCII capital of a small letter; any other character itself.
pub open spec fn ascii_upper_char(c: char) -> char {
    if 'a' <= c && c <= 'z' {
        (c as u8 - 32) as char
    } else {
        c
    }
}

/// `s` with every ASCII capital replaced by its small letter.
pub open spec fn ascii_lowercase(s: Seq<char>) -> Seq<char> {
    s.map_values(|c: char| ascii_lower_char(c))
}

/// `s` with every ASCII small letter replaced by its capital.
pub open spec fn ascii_uppercase(s: Seq<char>) -> Seq<char> {
    s.map_values(|c: char| ascii_upper_char(c))
}

/// The characters with the Unicode property `White_Space`.
pub open spec fn is_space(c: char) -> bool {
    let u = c as u32;
    ||| 0x9 <= u <= 0xd
    ||| u == 0x20
    ||| u == 0x85
    ||| u == 0xa0
    ||| u == 0x1680
    ||| 0x2000 <= u <= 0x200a
    ||| u == 0x2028
    ||| u == 0x2029
    ||| u == 0x202f
    ||| u == 0x205f
    ||| u == 0x3000
}

/// Whether `c` has the Unicode property `White_Space`.
pub fn is_space_char(c: char) -> (r: bool)
    ensures
        r == is_space(c),
{
    let u: u32 = c as u32;
    (0x9 <= u && u <= 0xd) || u == 0x20 || u == 0x85 || u == 0xa0 || u == 0x1680 || (0x2000 <= u
        && u <= 0x200a) || u == 0x2028 || u == 0x2029 || u == 0x202f || u == 0x205f || u == 0x3000
}

/// `c` as a small letter, if it is an ASCII capital.
pub fn lower_char(c: char) -> (r: char)
    ensures
        r == ascii_lower_char(c),
{
    if 'A' <= c && c <= 'Z' {
        (c as u8 + 32) as char
    } else {
        c
    }
}

// ---------------------------------------------------------------------
// Between text and characters
// ---------------------------------------------------------------------

/// The characters of `s`.
pub fn chars_of(s: &str) -> (r: Vec<char>)
    ensures
        r@ == s@,
{
    let mut out: Vec<char> = Vec::new();
    for c in it: s.chars()
        invariant
            it.seq() == s@,
            out@ == s@.take(it.index() as int),
    {
        proof {
            assert(s@.take(it.index() + 1) =~= s@.take(it.index() as int).push(s@[it.index() as int]));
        }
        out.push(c);
    }
    assert(s@.take(s@.len() as int) =~= s@);
    out
}

/// The text made of the characters `cs[from..to]`.
pub fn text_of(cs: &Vec<char>, from: usize, to: usize) -> (r: String)
    requires
        from <= to <= cs.len(),
    ensures
        r@ == cs@.subrange(from as int, to as int),
{
    let mut out = String::new();
    let mut i: usize = from;
    while i < to
        invariant
            from <= i <= to <= cs.len(),
            out@ == cs@.subrange(from as int, i as int),
        decreases to - i,
    {
        out.push(cs[i]);
        i = i + 1;
        assert(cs@.subrange(from as int, i as int) =~= cs@.subrange(from as int, i - 1).push(cs@[i - 1]));
    }
    out
}

/// Whether two texts are the same.
pub fn same(a: &str, b: &str) -> (r: bool)
    ensures
        r == (a@ == b@),
{
    let x = a.to_owned();
    let y = b.to_owned();
    x == y
}

// ---------------------------------------------------------------------
// Prefixes, suffixes, occurrences
// ---------------------------------------------------------------------

/// Whether `pat` stands in `s` at position `i`.
pub open spec fn occurs_at(s: Seq<char>, pat: Seq<char>, i: int) -> bool {
    &&& 0 <= i
    &&& i + pat.len() <= s.len()
    &&& s.subrange(i, i + pat.len()) == pat
}

/// Whether `pat` stands anywhere in `s`.
pub open spec fn contains_text(s: Seq<char>, pat: Seq<char>) -> bool {
    exists|i: int| occurs_at(s, pat, i)
}

/// Whether `pat` stands in `s` at position `i`.
pub fn matches_at(s: &Vec<char>, pat: &Vec<char>, i: usize) -> (r: bool)
    ensures
        r == occurs_at(s@, pat@, i as int),
{
    if pat.len() > s.len() || i > s.len() - pat.len() {
        return false;
    }
    let mut k: usize = 0;
    while k < pat.len()
        invariant
            k <= pat.len() <= s.len(),
            i <= s.len() - pat.len(),
            forall|j: int| 0 <= j < k ==> s@[i + j] == pat@[j],
        decreases pat.len() - k,
    {
        if s[i + k] != pat[k] {
            proof {
                if occurs_at(s@, pat@, i as int) {
                    assert(s@.subrange(i as int, i + pat@.len())[k as int] == pat@[k as int]);
                }
            }
            return false;
        }
        k = k + 1;
    }
    assert(s@.subrange(i as int, i + pat@.len()) =~= pat@);
    true
}

/// Whether `pat` stands anywhere in `s`.
pub fn contains_chars(s: &Vec<char>, pat: &Vec<char>) -> (r: bool)
    ensures
        r == contains_text(s@, pat@),
{
    if pat.len() > s.len() {
        return false;
    }
    let last: usize = s.len() - pat.len();
    let mut i: usize = 0;
    while i <= last
        invariant
            pat.len() <= s.len(),
            last == s.len() - pat.len(),
            i <= last + 1,
            forall|j: int| 0 <= j < i ==> !occurs_at(s@, pat@, j),
        decreases last + 1 - i,
    {
        if matches_at(s, pat, i) {
            return true;
        }
        if i == last {
            return false;
        }
        i = i + 1;
    }
    false
}

/// Whether `pat` stands anywhere in `s`.
pub fn contains_str(s: &str, pat: &str) -> (r: bool)
    ensures
        r == contains_text(s@, pat@),
{
    contains_chars(&chars_of(s), &chars_of(pat))
}

/// Whether `s` begins with `pat`.
pub fn has_prefix(s: &str, pat: &str) -> (r: bool)
    ensures
        r == pat@.is_prefix_of(s@),
{
    matches_at(&chars_of(s), &chars_of(pat), 0)
}

/// Whether `s` ends with `pat`.
pub fn has_suffix(s: &str, pat: &str) -> (r: bool)
    ensures
        r == pat@.is_suffix_of(s@),
{
    let cs = chars_of(s);
    let ps = chars_of(pat);
    if ps.len() > cs.len() {
        return false;
    }
    matches_at(&cs, &ps, cs.len() - ps.len())
}

/// `s` without its prefix `pat`; nothing where `s` does not begin with it.
pub fn strip_prefix(s: &str, pat: &str) -> (r: Option<String>)
    ensures
        r is Some <==> pat@.is_prefix_of(s@),
        r matches Some(rest) ==> rest@ == s@.skip(pat@.len() as int),
{
    let cs = chars_of(s);
    let ps = chars_of(pat);
    if matches_at(&cs, &ps, 0) {
        let r = text_of(&cs, ps.len(), cs.len());
        Some(r)
    } else {
        None
    }
}

/// Two texts one after the other.
pub fn concat(a: &str, b: &str) -> (r: String)
    ensures
        r@ == a@ + b@,
{
    let mut s = a.to_owned();
    s.append(b);
    s
}

/// Three texts one after the other.
pub fn concat3(a: &str, b: &str, c: &str) -> (r: String)
    ensures
        r@ == a@ + b@ + c@,
{
    let mut s = a.to_owned();
    s.append(b);
    s.append(c);
    s
}

/// `s` with every ASCII capital replaced by its small letter.
pub fn ascii_lower(s: &str) -> (r: String)
    ensures
        r@ == ascii_lowercase(s@),
{
    let cs = chars_of(s);
    let mut out = String::new();
    let mut i: usize = 0;
    while i < cs.len()
        invariant
            cs@ == s@,
            i <= cs.len(),
            out@ =~= ascii_lowercase(s@).take(i as int),
        decreases cs.len() - i,
    {
        out.push(lower_char(cs[i]));
        i = i + 1;
    }
    out
}

// ---------------------------------------------------------------------
// Bytes
// ---------------------------------------------------------------------

/// How many bytes a character takes in UTF-8.
pub open spec fn char_bytes(c: char) -> nat {
    let u = c as u32;
    if u < 0x80 {
        1
    } else if u < 0x800 {
        2
    } else if u < 0x10000 {
        3
    } else {
        4
    }
}

/// How many bytes characters take in UTF-8.
pub open spec fn byte_len(s: Seq<char>) -> nat
    decreases s.len(),
{
    if s.len() == 0 {
        0
    } else {
        byte_len(s.drop_last()) + char_bytes(s.last())
    }
}

/// The length of the encoding is the sum over the characters.
pub proof fn lemma_byte_len(s: Seq<char>)
    ensures
        encode_utf8(s).len() == byte_len(s),
    decreases s.len(),
{
    if s.len() > 0 {
        lemma_byte_len(s.drop_first());
        lemma_byte_len_first(s);
        vstd::utf8::char_is_scalar(s[0]);
    }
}

/// The first character takes its part of the length.
proof fn lemma_byte_len_first(s: Seq<char>)
    requires
        s.len() > 0,
    ensures
        byte_len(s) == char_bytes(s[0]) + byte_len(s.drop_first()),
    decreases s.len(),
{
    if s.len() == 1 {
        assert(s.drop_last() =~= Seq::empty());
        assert(s.drop_first() =~= Seq::empty());
        assert(byte_len(s.drop_last()) == 0);
    } else {
        lemma_byte_len_first(s.drop_last());
        assert(s.drop_last().drop_first() =~= s.drop_first().drop_last());
    }
}

/// How many bytes a character takes in UTF-8.
fn count_char_bytes(c: char) -> (r: usize)
    ensures
        r == char_bytes(c),
{
    let u: u32 = c as u32;
    if u < 0x80 {
        1
    } else if u < 0x800 {
        2
    } else if u < 0x10000 {
        3
    } else {
        4
    }
}

/// As many of the first characters of a text as fit into `n` bytes.
pub open spec fn fitting(s: Seq<char>, n: nat) -> Seq<char>
    decreases s.len(),
{
    if s.len() == 0 || byte_len(s) <= n {
        s
    } else {
        fitting(s.drop_last(), n)
    }
}

/// More characters take more bytes.
proof fn lemma_byte_len_grows(s: Seq<char>, a: int, b: int)
    requires
        0 <= a <= b <= s.len(),
    ensures
        byte_len(s.take(a)) + (b - a) <= byte_len(s.take(b)),
    decreases b - a,
{
    if a < b {
        lemma_byte_len_grows(s, a, b - 1);
        assert(s.take(b).drop_last() =~= s.take(b - 1));
    }
}

/// What fits is what the next character no longer fits behind.
proof fn lemma_fitting(s: Seq<char>, n: nat, i: int)
    requires
        0 <= i <= s.len(),
        byte_len(s.take(i)) <= n,
        i < s.len() ==> byte_len(s.take(i + 1)) > n,
    ensures
        fitting(s, n) == s.take(i),
    decreases s.len(),
{
    if i == s.len() {
        assert(s.take(i) =~= s);
    } else {
        lemma_byte_len_grows(s, i + 1, s.len() as int);
        assert(s.take(s.len() as int) =~= s);
        let front = s.drop_last();
        assert(front.take(i) =~= s.take(i));
        if i < front.len() {
            assert(front.take(i + 1) =~= s.take(i + 1));
        }
        lemma_fitting(front, n, i);
    }
}

/// As many of the first characters of a text as fit into `n` bytes.
pub fn byte_prefix(s: &str, n: usize) -> (r: String)
    ensures
        r@ == fitting(s@, n as nat),
{
    let cs = chars_of(s);
    let mut i: usize = 0;
    let mut taken: usize = 0;
    assert(s@.take(0) =~= Seq::empty());
    while i < cs.len() && count_char_bytes(cs[i]) <= n - taken
        invariant
            cs@ == s@,
            i <= cs.len(),
            taken == byte_len(s@.take(i as int)),
            taken <= n,
        decreases cs.len() - i,
    {
        assert(s@.take(i + 1).drop_last() =~= s@.take(i as int));
        taken = taken + count_char_bytes(cs[i]);
        i = i + 1;
    }
    proof {
        if i < s@.len() {
            assert(s@.take(i + 1).drop_last() =~= s@.take(i as int));
        }
        lemma_fitting(s@, n as nat, i as int);
    }
    text_of(&cs, 0, i)
}

// ---------------------------------------------------------------------
// Order
// ---------------------------------------------------------------------

/// Whether `a` is `b` or stands before it in a dictionary: the first
/// character in which they differ decides, and a prefix comes first.
pub open spec fn not_after(a: Seq<char>, b: Seq<char>) -> bool
    decreases a.len(),
{
    if a.len() == 0 {
        true
    } else if b.len() == 0 {
        false
    } else if a[0] != b[0] {
        a[0] < b[0]
    } else {
        not_after(a.skip(1), b.skip(1))
    }
}

/// Of two texts, one is not after the other.
pub proof fn lemma_order_total(a: Seq<char>, b: Seq<char>)
    ensures
        not_after(a, b) || not_after(b, a),
    decreases a.len(),
{
    if a.len() > 0 && b.len() > 0 && a[0] == b[0] {
        lemma_order_total(a.skip(1), b.skip(1));
    }
}

/// Dictionary order is transitive.
pub proof fn lemma_order_transitive(a: Seq<char>, b: Seq<char>, c: Seq<char>)
    requires
        not_after(a, b),
        not_after(b, c),
    ensures
        not_after(a, c),
    decreases a.len(),
{
    if a.len() > 0 && b.len() > 0 && c.len() > 0 && a[0] == b[0] && b[0] == c[0] {
        lemma_order_transitive(a.skip(1), b.skip(1), c.skip(1));
    }
}

/// Whether `a` is `b` or stands before it in a dictionary.
pub fn is_not_after(a: &str, b: &str) -> (r: bool)
    ensures
        r == not_after(a@, b@),
{
    let x = chars_of(a);
    let y = chars_of(b);
    let mut i: usize = 0;
    assert(x@.skip(0) =~= x@);
    assert(y@.skip(0) =~= y@);
    while i < x.len()
        invariant
            x@ == a@,
            y@ == b@,
            i <= x.len(),
            i <= y.len(),
            not_after(a@, b@) == not_after(x@.skip(i as int), y@.skip(i as int)),
        decreases x.len() - i,
    {
        if i == y.len() {
            return false;
        }
        assert(x@.skip(i as int)[0] == x@[i as int]);
        assert(y@.skip(i as int)[0] == y@[i as int]);
        if x[i] != y[i] {
            return x[i] < y[i];
        }
        assert(x@.skip(i as int).skip(1) =~= x@.skip(i + 1));
        assert(y@.skip(i as int).skip(1) =~= y@.skip(i + 1));
        i = i + 1;
    }
    true
}

/// Whether the texts are in dictionary order.
pub open spec fn in_order(texts: Seq<Seq<char>>) -> bool {
    forall|i: int, j: int| 0 <= i < j < texts.len() ==> not_after(#[trigger] texts[i], #[trigger] texts[j])
}

/// What a list of texts stands for.
pub open spec fn texts_model(texts: Seq<String>) -> Seq<Seq<char>> {
    Seq::new(texts.len(), |i: int| texts[i]@)
}

/// What texts of the program stand for.
pub open spec fn words_model(words: Seq<&'static str>) -> Seq<Seq<char>> {
    Seq::new(words.len(), |i: int| words[i]@)
}

/// Puts a text at its place among texts in dictionary order, behind those
/// that are not after it.
fn insert_in_order(texts: &mut Vec<String>, text: String)
    requires
        in_order(texts_model(old(texts)@)),
    ensures
        in_order(texts_model(final(texts)@)),
        texts_model(final(texts)@).to_multiset() == texts_model(old(texts)@).to_multiset().insert(text@),
{
    let ghost before = texts_model(texts@);
    let mut i: usize = texts.len();
    while i > 0 && !is_not_after(texts[i - 1].as_str(), text.as_str())
        invariant
            i <= texts.len(),
            before == texts_model(texts@),
            in_order(before),
            forall|j: int| i <= j < before.len() ==> not_after(text@, #[trigger] before[j]),
        decreases i,
    {
        proof {
            lemma_order_total(before[i - 1], text@);
        }
        i = i - 1;
    }
    let ghost t = text@;
    proof {
        if i > 0 {
            assert(not_after(before[i - 1], t));
            assert forall|j: int| 0 <= j < i implies not_after(#[trigger] before[j], t) by {
                if j < i - 1 {
                    lemma_order_transitive(before[j], before[i - 1], t);
                }
            }
        }
    }
    texts.insert(i, text);
    proof {
        let after = texts_model(texts@);
        assert(after =~= before.insert(i as int, t));
        vstd::seq_lib::to_multiset_insert(before, i as int, t);
    }
}

/// The texts in dictionary order.
pub fn sorted_texts(texts: &Vec<String>) -> (r: Vec<String>)
    ensures
        in_order(texts_model(r@)),
        texts_model(r@).to_multiset() == texts_model(texts@).to_multiset(),
{
    let mut out: Vec<String> = Vec::new();
    let mut i: usize = 0;
    assert(texts_model(out@) =~= texts_model(texts@).take(0));
    while i < texts.len()
        invariant
            i <= texts.len(),
            in_order(texts_model(out@)),
            texts_model(out@).to_multiset() == texts_model(texts@).take(i as int).to_multiset(),
        decreases texts.len() - i,
    {
        proof {
            let m = texts_model(texts@);
            assert(m.take(i + 1) =~= m.take(i as int).push(m[i as int]));
            m.take(i as int).to_multiset_ensures();
        }
        insert_in_order(&mut out, texts[i].clone());
        i = i + 1;
    }
    assert(texts_model(texts@).take(i as int) =~= texts_model(texts@));
    out
}

// ---------------------------------------------------------------------
// White space
// ---------------------------------------------------------------------

/// How many characters at the start of `s` are white space.
pub open spec fn leading_spaces(s: Seq<char>) -> nat
    decreases s.len(),
{
    if s.len() > 0 && is_space(s[0]) {
        1 + leading_spaces(s.skip(1))
    } else {
        0
    }
}

/// `s` from its first character that is not white space.
pub open spec fn trim_start(s: Seq<char>) -> Seq<char> {
    s.skip(leading_spaces(s) as int)
}

/// Whether `s` holds nothing but white space.
pub open spec fn is_blank(s: Seq<char>) -> bool {
    forall|i: int| 0 <= i < s.len() ==> is_space(#[trigger] s[i])
}

/// Leading white space is at most the whole text.
pub proof fn lemma_leading_spaces(s: Seq<char>)
    ensures
        leading_spaces(s) <= s.len(),
        forall|i: int| 0 <= i < leading_spaces(s) ==> is_space(#[trigger] s[i]),
        leading_spaces(s) < s.len() ==> !is_space(s[leading_spaces(s) as int]),
    decreases s.len(),
{
    if s.len() > 0 && is_space(s[0]) {
        lemma_leading_spaces(s.skip(1));
        assert forall|i: int| 0 <= i < leading_spaces(s) implies is_space(#[trigger] s[i]) by {
            if i > 0 {
                assert(s.skip(1)[i - 1] == s[i]);
            }
        }
    }
}

/// The leading white space of `s` is fixed by where it ends.
pub proof fn lemma_leading_spaces_unique(s: Seq<char>, n: int)
    requires
        0 <= n <= s.len(),
        forall|i: int| 0 <= i < n ==> is_space(#[trigger] s[i]),
        n < s.len() ==> !is_space(s[n]),
    ensures
        leading_spaces(s) == n,
{
    lemma_leading_spaces(s);
    if leading_spaces(s) < n {
        assert(is_space(s[leading_spaces(s) as int]));
    }
    if n < leading_spaces(s) {
        assert(is_space(s[n]));
    }
}

/// Whether `s` holds nothing but white space.
pub fn blank(s: &str) -> (r: bool)
    ensures
        r == is_blank(s@),
{
    let cs = chars_of(s);
    let mut i: usize = 0;
    while i < cs.len()
        invariant
            cs@ == s@,
            i <= cs.len(),
            forall|j: int| 0 <= j < i ==> is_space(#[trigger] cs@[j]),
        decreases cs.len() - i,
    {
        if !is_space_char(cs[i]) {
            return false;
        }
        i = i + 1;
    }
    true
}

/// How many dots stand at the start of `s`.
pub open spec fn leading_dots(s: Seq<char>) -> nat
    decreases s.len(),
{
    if s.len() > 0 && s[0] == '.' {
        1 + leading_dots(s.skip(1))
    } else {
        0
    }
}

/// `s` without the dots that stand at its start.
pub fn trim_dots(s: &str) -> (r: String)
    ensures
        r@ == s@.skip(leading_dots(s@) as int),
{
    let cs = chars_of(s);
    let mut i: usize = 0;
    assert(cs@.skip(0) =~= cs@);
    while i < cs.len() && cs[i] == '.'
        invariant
            i <= cs.len(),
            leading_dots(cs@) == i + leading_dots(cs@.skip(i as int)),
        decreases cs.len() - i,
    {
        assert(cs@.skip(i as int).skip(1) =~= cs@.skip(i + 1));
        assert(cs@.skip(i as int)[0] == cs@[i as int]);
        i = i + 1;
    }
    proof {
        if i < cs.len() {
            assert(cs@.skip(i as int)[0] == cs@[i as int]);
        }
    }
    text_of(&cs, i, cs.len())
}

// ---------------------------------------------------------------------
// Lines
// ---------------------------------------------------------------------

/// Where the line that starts at `i` ends: at the next newline, or at the end
/// of the text.
pub open spec fn line_end(s: Seq<char>, i: int) -> int
    decreases s.len() - i,
{
    if i < 0 || i >= s.len() || s[i] == '\n' {
        i
    } else {
        line_end(s, i + 1)
    }
}

/// Where the line number `n` (from 0) starts; past the end of the text where
/// there are not so many lines.
pub open spec fn line_start(s: Seq<char>, n: nat) -> int
    decreases n,
{
    if n == 0 {
        0
    } else {
        line_end(s, line_start(s, (n - 1) as nat)) + 1
    }
}

/// The line number `n` (from 0) of `s`, without its newline.
pub open spec fn line(s: Seq<char>, n: nat) -> Seq<char> {
    s.subrange(line_start(s, n), line_end(s, line_start(s, n)))
}

/// The end of the line that starts at `i`.
pub fn find_line_end(s: &Vec<char>, i: usize) -> (r: usize)
    requires
        i <= s.len(),
    ensures
        r == line_end(s@, i as int),
        i <= r <= s.len(),
        r < s.len() ==> s@[r as int] == '\n',
        forall|j: int| i <= j < r ==> s@[j] != '\n',
{
    let mut k: usize = i;
    while k < s.len() && s[k] != '\n'
        invariant
            i <= k <= s.len(),
            line_end(s@, i as int) == line_end(s@, k as int),
            forall|j: int| i <= j < k ==> s@[j] != '\n',
        decreases s.len() - k,
    {
        k = k + 1;
    }
    k
}

// ---------------------------------------------------------------------
// Decimal numbers
// ---------------------------------------------------------------------

/// The digit of a number below ten.
pub open spec fn digit(n: nat) -> char {
    (48 + n) as u8 as char
}

/// A number in decimal, without leading zeros.
pub open spec fn decimal(n: nat) -> Seq<char>
    decreases n,
{
    if n < 10 {
        seq![digit(n)]
    } else {
        decimal(n / 10).push(digit(n % 10))
    }
}

/// Whether `c` is one of `0` to `9`.
pub open spec fn is_digit(c: char) -> bool {
    '0' <= c && c <= '9'
}

/// What a run of digits stands for.
pub open spec fn digits_value(s: Seq<char>) -> nat
    decreases s.len(),
{
    if s.len() == 0 {
        0
    } else {
        digits_value(s.drop_last()) * 10 + (s.last() as u32 - '0' as u32) as nat
    }
}

/// Reading a number back from its decimal form gives the number.
pub proof fn lemma_decimal_value(n: nat)
    ensures
        digits_value(decimal(n)) == n,
        decimal(n).len() > 0,
        forall|i: int| 0 <= i < decimal(n).len() ==> is_digit(#[trigger] decimal(n)[i]),
    decreases n,
{
    assert(digit(n % 10) as u32 == 48 + n % 10);
    if n < 10 {
        assert(decimal(n).drop_last() =~= Seq::<char>::empty());
        assert(digits_value(Seq::<char>::empty()) == 0);
        assert(decimal(n).last() == digit(n % 10));
    } else {
        lemma_decimal_value(n / 10);
        assert(decimal(n).drop_last() =~= decimal(n / 10));
    }
}

/// Different numbers have different decimal forms.
pub proof fn lemma_decimal_injective(a: nat, b: nat)
    requires
        decimal(a) == decimal(b),
    ensures
        a == b,
{
    lemma_decimal_value(a);
    lemma_decimal_value(b);
}

/// `n` in decimal.
pub fn to_decimal(n: u64) -> (r: String)
    ensures
        r@ == decimal(n as nat),
    decreases n,
{
    let d: u64 = n % 10;
    let c: char = ((d as u8) + 48) as char;
    if n < 10 {
        let mut s = String::new();
        s.push(c);
        assert(s@ =~= decimal(n as nat));
        s
    } else {
        let mut s = to_decimal(n / 10);
        s.push(c);
        s
    }
}

/// Whether `s` holds nothing but digits.
pub open spec fn all_digits(s: Seq<char>) -> bool {
    forall|i: int| 0 <= i < s.len() ==> is_digit(#[trigger] s[i])
}

/// `s` without a plus sign at its start.
pub open spec fn unsigned_part(s: Seq<char>) -> Seq<char> {
    if s.len() > 0 && s[0] == '+' {
        s.skip(1)
    } else {
        s
    }
}

/// What `u64::from_str` reads: an optional plus sign and then one or more
/// digits, for a number that fits.
pub open spec fn read_u64(s: Seq<char>) -> Option<u64> {
    let digits = unsigned_part(s);
    if digits.len() > 0 && all_digits(digits) && digits_value(digits) <= u64::MAX {
        Some(digits_value(digits) as u64)
    } else {
        None
    }
}

/// More digits stand for no smaller a number.
proof fn lemma_digits_value_grows(s: Seq<char>, k: int)
    requires
        0 <= k <= s.len(),
        all_digits(s),
    ensures
        digits_value(s.take(k)) <= digits_value(s),
    decreases s.len() - k,
{
    if k < s.len() {
        lemma_digits_value_grows(s, k + 1);
        assert(s.take(k + 1).drop_last() =~= s.take(k));
    } else {
        assert(s.take(k) =~= s);
    }
}

/// Reads an unsigned number.
pub fn parse_u64(s: &str) -> (r: Option<u64>)
    ensures
        r == read_u64(s@),
{
    let cs = chars_of(s);
    let start: usize = if cs.len() > 0 && cs[0] == '+' {
        1
    } else {
        0
    };
    let ghost digits = unsigned_part(s@);
    assert(cs@.skip(start as int) =~= digits);
    if start == cs.len() {
        return None;
    }
    let mut value: u64 = 0;
    let mut i: usize = start;
    assert(digits.take(0) =~= Seq::<char>::empty());
    while i < cs.len()
        invariant
            start <= i <= cs.len(),
            start < cs.len(),
            digits == unsigned_part(s@),
            digits.len() == cs@.len() - start,
            forall|j: int| 0 <= j < digits.len() ==> #[trigger] digits[j] == cs@[start + j],
            forall|j: int| 0 <= j < i - start ==> is_digit(#[trigger] digits[j]),
            value == digits_value(digits.take(i - start)),
        decreases cs.len() - i,
    {
        let c: char = cs[i];
        assert(digits[i - start] == c);
        if !('0' <= c && c <= '9') {
            assert(!is_digit(digits[i - start]));
            return None;
        }
        let d: u64 = (c as u32 - 48) as u64;
        proof {
            assert(digits.take(i - start + 1).drop_last() =~= digits.take(i - start));
            assert(digits.take(i - start + 1).last() == c);
            assert(digits_value(digits.take(i - start + 1)) == value * 10 + d);
        }
        if value > 1844674407370955161u64 || (value == 1844674407370955161u64 && d > 5) {
            proof {
                if all_digits(digits) {
                    lemma_digits_value_grows(digits, i - start + 1);
                }
            }
            return None;
        }
        value = value * 10 + d;
        i = i + 1;
    }
    assert(digits.take(i - start) =~= digits);
    Some(value)
}

/// `s` with spaces behind it up to `width` characters.
pub open spec fn padded(s: Seq<char>, width: nat) -> Seq<char> {
    if s.len() >= width {
        s
    } else {
        s + Seq::new((width - s.len()) as nat, |i: int| ' ')
    }
}

/// `s` with spaces behind it up to `width` characters.
pub fn pad_right(s: &str, width: usize) -> (r: String)
    ensures
        r@ == padded(s@, width as nat),
{
    let mut out = s.to_owned();
    let mut n: usize = s.unicode_len();
    while n < width
        invariant
            out@.len() == n,
            s@.len() <= n,
            n <= width || n == s@.len(),
            out@ == s@ + Seq::new((n - s@.len()) as nat, |i: int| ' '),
        decreases width - n,
    {
        out.push(' ');
        n = n + 1;
        assert(out@ =~= s@ + Seq::new((n - s@.len()) as nat, |i: int| ' '));
    }
    assert(out@ =~= padded(s@, width as nat));
    out
}

/// `s` with spaces before it up to `width` characters.
pub open spec fn padded_left(s: Seq<char>, width: nat) -> Seq<char> {
    if s.len() >= width {
        s
    } else {
        Seq::new((width - s.len()) as nat, |i: int| ' ') + s
    }
}

/// `s` with spaces before it up to `width` characters.
pub fn pad_left(s: &str, width: usize) -> (r: String)
    ensures
        r@ == padded_left(s@, width as nat),
{
    let len: usize = s.unicode_len();
    let mut out = String::new();
    let mut n: usize = len;
    while n < width
        invariant
            len == s@.len(),
            len <= n,
            n <= width || n == len,
            out@ == Seq::new((n - len) as nat, |i: int| ' '),
        decreases width - n,
    {
        out.push(' ');
        n = n + 1;
        assert(out@ =~= Seq::new((n - len) as nat, |i: int| ' '));
    }
    out.append(s);
    assert(out@ =~= padded_left(s@, width as nat));
    out
}

// ---------------------------------------------------------------------
// What holds of every text
// ---------------------------------------------------------------------

/// In lowercase each of `A` to `Z` is the letter 32 places on, and every other
/// character is itself; in uppercase each of `a` to `z` is the letter 32 places
/// before.
pub proof fn law_letters_of_ascii(s: Seq<char>, i: int)
    requires
        0 <= i < s.len(),
    ensures
        ascii_lowercase(s).len() == s.len(),
        65 <= s[i] as u32 <= 90 ==> ascii_lowercase(s)[i] as u32 == s[i] as u32 + 32,
        !(65 <= s[i] as u32 <= 90) ==> ascii_lowercase(s)[i] == s[i],
        ascii_uppercase(s).len() == s.len(),
        97 <= s[i] as u32 <= 122 ==> ascii_uppercase(s)[i] as u32 == s[i] as u32 - 32,
        !(97 <= s[i] as u32 <= 122) ==> ascii_uppercase(s)[i] == s[i],
{
}

/// White space are the characters of Unicode that are it.
pub proof fn law_white_space(c: char)
    ensures
        is_space(c) <==> {
            ||| c == '\t'
            ||| c == '\n'
            ||| c == '\u{b}'
            ||| c == '\u{c}'
            ||| c == '\r'
            ||| c == ' '
            ||| c == '\u{85}'
            ||| c == '\u{a0}'
            ||| c == '\u{1680}'
            ||| '\u{2000}' <= c <= '\u{200a}'
            ||| c == '\u{2028}'
            ||| c == '\u{2029}'
            ||| c == '\u{202f}'
            ||| c == '\u{205f}'
            ||| c == '\u{3000}'
        },
{
}

/// A text stands in another exactly if that is made of it with something before
/// and something behind.
pub proof fn law_texts_stand_in_others(a: Seq<char>, pat: Seq<char>, b: Seq<char>, s: Seq<char>)
    ensures
        contains_text(a + pat + b, pat),
        contains_text(s, pat) <==> exists|x: Seq<char>, y: Seq<char>|
            s == #[trigger] (x + pat + y),
{
    let whole = a + pat + b;
    assert(whole.subrange(a.len() as int, (a.len() + pat.len()) as int) =~= pat);
    assert(occurs_at(whole, pat, a.len() as int));
    if contains_text(s, pat) {
        let i = choose|i: int| occurs_at(s, pat, i);
        let (x, y) = (s.take(i), s.skip(i + pat.len()));
        assert(s =~= x + pat + y) by {
            assert forall|j: int| 0 <= j < s.len() implies s[j] == (x + pat + y)[j] by {
                if i <= j < i + pat.len() {
                    assert(s.subrange(i, i + pat.len())[j - i] == pat[j - i]);
                }
            }
        }
    }
    if exists|x: Seq<char>, y: Seq<char>| s == #[trigger] (x + pat + y) {
        let (x, y) = choose|x: Seq<char>, y: Seq<char>| s == #[trigger] (x + pat + y);
        assert(s.subrange(x.len() as int, (x.len() + pat.len()) as int) =~= pat);
        assert(occurs_at(s, pat, x.len() as int));
    }
}

/// What fits into so many bytes is the longest beginning of a text that does.
pub proof fn law_what_fits(s: Seq<char>, n: nat, k: int)
    requires
        0 <= k <= s.len(),
    ensures
        fitting(s, n).is_prefix_of(s),
        encode_utf8(fitting(s, n)).len() <= n,
        encode_utf8(s.take(k)).len() <= n ==> k <= fitting(s, n).len(),
    decreases s.len(),
{
    lemma_byte_len(s.take(k));
    lemma_byte_len(fitting(s, n));
    lemma_byte_len(s);
    if s.len() > 0 && byte_len(s) > n {
        if k < s.len() {
            law_what_fits(s.drop_last(), n, k);
            assert(s.drop_last().take(k) =~= s.take(k));
        } else {
            law_what_fits(s.drop_last(), n, 0);
            assert(s.take(k) =~= s);
        }
        let f = fitting(s, n);
        assert(f == s.drop_last().take(f.len() as int));
        assert(f =~= s.take(f.len() as int));
    } else {
        assert(s.take(s.len() as int) =~= s);
    }
}

/// Of two texts that are the same up to a place, the one with the smaller
/// character there comes first; and a text comes before what it is the
/// beginning of.
pub proof fn law_order_of_texts(a: Seq<char>, b: Seq<char>, k: int)
    requires
        0 <= k <= a.len(),
        k <= b.len(),
        a.take(k) == b.take(k),
    ensures
        k < a.len() && k < b.len() && a[k] < b[k] ==> not_after(a, b) && !not_after(b, a),
        k == a.len() ==> not_after(a, b),
        k == a.len() && k < b.len() ==> !not_after(b, a),
    decreases k,
{
    if k > 0 {
        assert(a[0] == a.take(k)[0]);
        assert(b[0] == b.take(k)[0]);
        assert(a.skip(1).take(k - 1) =~= a.take(k).skip(1));
        assert(b.skip(1).take(k - 1) =~= b.take(k).skip(1));
        law_order_of_texts(a.skip(1), b.skip(1), k - 1);
    }
}

/// White space at the start goes, and nothing else does.
pub proof fn law_space_at_the_start(blanks: Seq<char>, rest: Seq<char>)
    requires
        is_blank(blanks),
        rest.len() > 0 ==> !is_space(rest[0]),
    ensures
        trim_start(blanks + rest) == rest,
{
    let s = blanks + rest;
    assert forall|i: int| 0 <= i < blanks.len() implies is_space(#[trigger] s[i]) by {
        assert(s[i] == blanks[i]);
    }
    if rest.len() > 0 {
        assert(s[blanks.len() as int] == rest[0]);
    }
    lemma_leading_spaces_unique(s, blanks.len() as int);
    assert(s.skip(blanks.len() as int) =~= rest);
}

/// Dots at the start are counted, and nothing else is.
pub proof fn law_dots_at_the_start(n: nat, rest: Seq<char>)
    requires
        rest.len() > 0 ==> rest[0] != '.',
    ensures
        leading_dots(Seq::new(n, |i: int| '.') + rest) == n,
    decreases n,
{
    let s = Seq::new(n, |i: int| '.') + rest;
    if n > 0 {
        law_dots_at_the_start((n - 1) as nat, rest);
        assert(s.skip(1) =~= Seq::new((n - 1) as nat, |i: int| '.') + rest);
    } else {
        assert(s =~= rest);
    }
}

/// The first line is what stands before the first newline, or the whole text
/// where there is none; and the lines behind it are those of what follows on
/// that newline.
pub proof fn law_lines(first: Seq<char>, rest: Seq<char>, n: nat)
    requires
        !first.contains('\n'),
    ensures
        line(first, 0) == first,
        line(first + seq!['\n'] + rest, 0) == first,
        line_start(first + seq!['\n'] + rest, n + 1) == first.len() + 1 + line_start(rest, n),
        line_start(rest, n) <= rest.len() ==> line(first + seq!['\n'] + rest, n + 1) == line(
            rest,
            n,
        ),
{
    let s = first + seq!['\n'] + rest;
    lemma_line_end(first, 0);
    lemma_first_line_end(first, rest, 0);
    assert(first.subrange(0, first.len() as int) =~= first);
    assert(s.subrange(0, first.len() as int) =~= first);
    let off = first.len() + 1;
    lemma_later_line_start(first, rest, n);
    lemma_line_start(rest, n);
    let i = line_start(rest, n);
    lemma_later_line_end(first, rest, i);
    lemma_line_end_bound(rest, i);
    let e = line_end(rest, i);
    if i <= rest.len() {
        assert(s.subrange(off + i, off + e) =~= rest.subrange(i, e)) by {
            assert forall|j: int| 0 <= j < e - i implies s.subrange(off + i, off + e)[j]
                == rest.subrange(i, e)[j] by {
                assert(s[off + i + j] == rest[i + j]);
            }
        }
    }
}

proof fn lemma_line_end(s: Seq<char>, i: int)
    requires
        0 <= i <= s.len(),
        !s.contains('\n'),
    ensures
        line_end(s, i) == s.len(),
    decreases s.len() - i,
{
    if i < s.len() {
        assert(s[i] != '\n');
        lemma_line_end(s, i + 1);
    }
}

proof fn lemma_line_end_bound(s: Seq<char>, i: int)
    ensures
        line_end(s, i) >= i,
        i <= s.len() ==> line_end(s, i) <= s.len(),
    decreases s.len() - i,
{
    if 0 <= i < s.len() && s[i] != '\n' {
        lemma_line_end_bound(s, i + 1);
    }
}

proof fn lemma_line_start(s: Seq<char>, n: nat)
    ensures
        line_start(s, n) >= 0,
    decreases n,
{
    if n > 0 {
        lemma_line_start(s, (n - 1) as nat);
        lemma_line_end_bound(s, line_start(s, (n - 1) as nat));
    }
}

proof fn lemma_first_line_end(first: Seq<char>, rest: Seq<char>, i: int)
    requires
        0 <= i <= first.len(),
        !first.contains('\n'),
    ensures
        line_end(first + seq!['\n'] + rest, i) == first.len(),
    decreases first.len() - i,
{
    let s = first + seq!['\n'] + rest;
    if i < first.len() {
        assert(s[i] == first[i]);
        lemma_first_line_end(first, rest, i + 1);
    } else {
        assert(s[i] == '\n');
    }
}

proof fn lemma_later_line_end(first: Seq<char>, rest: Seq<char>, i: int)
    requires
        0 <= i,
    ensures
        line_end(first + seq!['\n'] + rest, first.len() + 1 + i) == first.len() + 1 + line_end(
            rest,
            i,
        ),
    decreases rest.len() - i,
{
    let s = first + seq!['\n'] + rest;
    if i < rest.len() {
        assert(s[first.len() + 1 + i] == rest[i]);
        if rest[i] != '\n' {
            lemma_later_line_end(first, rest, i + 1);
        }
    }
}

proof fn lemma_later_line_start(first: Seq<char>, rest: Seq<char>, n: nat)
    requires
        !first.contains('\n'),
    ensures
        line_start(first + seq!['\n'] + rest, n + 1) == first.len() + 1 + line_start(rest, n),
    decreases n,
{
    let s = first + seq!['\n'] + rest;
    if n == 0 {
        lemma_first_line_end(first, rest, 0);
        assert(line_start(s, 0) == 0);
        assert(line_start(s, 1) == line_end(s, 0) + 1);
    } else {
        lemma_later_line_start(first, rest, (n - 1) as nat);
        lemma_line_start(rest, (n - 1) as nat);
        lemma_later_line_end(first, rest, line_start(rest, (n - 1) as nat));
    }
}

/// A digit behind others makes them count ten times, and is itself added.
pub proof fn law_digits_count(s: Seq<char>, d: nat)
    requires
        d < 10,
    ensures
        digits_value(Seq::empty()) == 0,
        digits_value(s.push(digit(d))) == 10 * digits_value(s) + d,
        digit(d) as u32 == 48 + d,
{
    assert(s.push(digit(d)).drop_last() =~= s);
}

/// A number is written in digits that count as it, with no zero before others.
pub proof fn law_numbers_are_written(n: nat)
    ensures
        digits_value(decimal(n)) == n,
        all_digits(decimal(n)),
        decimal(n).len() >= 1,
        decimal(n).len() > 1 ==> decimal(n)[0] != '0',
    decreases n,
{
    lemma_decimal_value(n);
    if n >= 10 {
        law_numbers_are_written(n / 10);
        assert(decimal(n)[0] == decimal(n / 10)[0]);
        if n / 10 < 10 {
            assert(digit(n / 10) as u32 == 48 + n / 10);
            assert(decimal(n / 10)[0] == digit(n / 10));
            assert('0' as u32 == 48);
        } else {
            assert(decimal(n / 10) == decimal(n / 10 / 10).push(digit(n / 10 % 10)));
            lemma_decimal_value(n / 10 / 10);
        }
    }
}

/// Of a text a number is read exactly if it is digits, perhaps behind a plus
/// sign, and the number fits into 64 bits; so a number is read as it is written.
pub proof fn law_numbers_are_read(digits: Seq<char>, s: Seq<char>, n: u64)
    ensures
        digits.len() > 0 && all_digits(digits) && digits_value(digits) <= u64::MAX ==> read_u64(
            digits,
        ) == Some(digits_value(digits) as u64) && read_u64(seq!['+'] + digits) == read_u64(digits),
        all_digits(digits) && digits_value(digits) > u64::MAX ==> read_u64(digits) is None,
        read_u64(Seq::empty()) is None,
        read_u64(seq!['+']) is None,
        (exists|i: int| 0 <= i < s.len() && !is_digit(#[trigger] s[i]) && (i > 0 || s[i] != '+'))
            ==> read_u64(s) is None,
        read_u64(decimal(n as nat)) == Some(n),
{
    if digits.len() > 0 && all_digits(digits) {
        assert(is_digit(digits[0]));
        assert((seq!['+'] + digits).skip(1) =~= digits);
    }
    assert(seq!['+'].skip(1) =~= Seq::<char>::empty());
    assert(unsigned_part(seq!['+']).len() == 0);
    lemma_decimal_value(n as nat);
    assert(is_digit(decimal(n as nat)[0]));
    if exists|i: int| 0 <= i < s.len() && !is_digit(#[trigger] s[i]) && (i > 0 || s[i] != '+') {
        let i = choose|i: int|
            0 <= i < s.len() && !is_digit(#[trigger] s[i]) && (i > 0 || s[i] != '+');
        if s[0] == '+' {
            assert(unsigned_part(s)[i - 1] == s[i]);
        }
    }
}

/// A text is made as wide as is asked for with spaces, and none is cut off.
pub proof fn law_texts_are_widened(s: Seq<char>, width: nat, i: int)
    ensures
        padded(s, width).len() == padded_left(s, width).len(),
        padded(s, width).len() == (if s.len() >= width {
            s.len()
        } else {
            width
        }),
        s.is_prefix_of(padded(s, width)),
        s.is_suffix_of(padded_left(s, width)),
        s.len() <= i < padded(s, width).len() ==> padded(s, width)[i] == ' ',
        0 <= i < padded_left(s, width).len() - s.len() ==> padded_left(s, width)[i] == ' ',
{
    let (p, q) = (padded(s, width), padded_left(s, width));
    assert(p.subrange(0, s.len() as int) =~= s);
    assert(q.subrange(q.len() - s.len(), q.len() as int) =~= s);
}

/// The functions on texts give what the laws on texts speak of.
pub proof fn law_what_is_made_of_texts(
    s: &str,
    t: &str,
    n: usize,
    c: char,
    space: bool,
    small: char,
    equal: bool,
    held: bool,
    starts: bool,
    ends: bool,
    rest: Option<String>,
    both: String,
    lower: String,
    start: String,
    before: bool,
    empty: bool,
    dots: String,
)
    requires
        call_ensures(is_space_char, (c,), space),
        call_ensures(lower_char, (c,), small),
        call_ensures(same, (s, t), equal),
        call_ensures(contains_str, (s, t), held),
        call_ensures(has_prefix, (s, t), starts),
        call_ensures(has_suffix, (s, t), ends),
        call_ensures(strip_prefix, (s, t), rest),
        call_ensures(concat, (s, t), both),
        call_ensures(ascii_lower, (s,), lower),
        call_ensures(byte_prefix, (s, n), start),
        call_ensures(is_not_after, (s, t), before),
        call_ensures(blank, (s,), empty),
        call_ensures(trim_dots, (s,), dots),
    ensures
        space == is_space(c),
        'A' <= c <= 'Z' ==> small as u32 == c as u32 + 32,
        !('A' <= c <= 'Z') ==> small == c,
        equal <==> s@ == t@,
        held <==> contains_text(s@, t@),
        starts <==> exists|x: Seq<char>| s@ == #[trigger] (t@ + x),
        ends <==> exists|x: Seq<char>| s@ == #[trigger] (x + t@),
        rest is Some <==> starts,
        rest matches Some(x) ==> s@ == t@ + x@,
        both@ == s@ + t@,
        lower@ == ascii_lowercase(s@),
        start@ == fitting(s@, n as nat),
        before == not_after(s@, t@),
        empty <==> forall|i: int| 0 <= i < s@.len() ==> is_space(#[trigger] s@[i]),
        dots@ == s@.skip(leading_dots(s@) as int),
{
    let (a, b) = (s@, t@);
    if b.is_prefix_of(a) {
        assert(a =~= b + a.skip(b.len() as int)) by {
            assert(a.subrange(0, b.len() as int) == b);
            assert forall|i: int| 0 <= i < b.len() implies a[i] == b[i] by {
                assert(a.subrange(0, b.len() as int)[i] == a[i]);
            }
        }
    }
    if exists|x: Seq<char>| a == #[trigger] (b + x) {
        let x = choose|x: Seq<char>| a == #[trigger] (b + x);
        assert((b + x).subrange(0, b.len() as int) =~= b);
    }
    if b.is_suffix_of(a) {
        let n = a.len() - b.len();
        assert(a =~= a.take(n) + b) by {
            assert(a.subrange(n, a.len() as int) == b);
            assert forall|i: int| n <= i < a.len() implies a[i] == b[i - n] by {
                assert(a.subrange(n, a.len() as int)[i - n] == a[i]);
            }
        }
    }
    if exists|x: Seq<char>| a == #[trigger] (x + b) {
        let x = choose|x: Seq<char>| a == #[trigger] (x + b);
        assert((x + b).subrange(x.len() as int, a.len() as int) =~= b);
    }
}

/// The functions on numbers, widths and lists give what the laws on them speak
/// of.
pub proof fn law_what_is_made_of_numbers(
    n: u64,
    written: String,
    s: &str,
    read: Option<u64>,
    width: usize,
    right: String,
    left: String,
    texts: &Vec<String>,
    sorted: Vec<String>,
    i: int,
    j: int,
)
    requires
        call_ensures(to_decimal, (n,), written),
        call_ensures(parse_u64, (s,), read),
        call_ensures(pad_right, (s, width), right),
        call_ensures(pad_left, (s, width), left),
        call_ensures(sorted_texts, (texts,), sorted),
    ensures
        written@ == decimal(n as nat),
        read == read_u64(s@),
        right@ == padded(s@, width as nat),
        left@ == padded_left(s@, width as nat),
        sorted@.len() == texts@.len(),
        0 <= i < j < sorted@.len() ==> not_after(sorted@[i]@, sorted@[j]@),
        0 <= i < texts@.len() ==> exists|k: int|
            0 <= k < sorted@.len() && (#[trigger] sorted@[k])@ == texts@[i]@,
{
    broadcast use vstd::seq_lib::group_to_multiset_ensures;

    let (a, b) = (texts_model(texts@), texts_model(sorted@));
    assert(a.to_multiset().len() == a.len());
    assert(b.to_multiset().len() == b.len());
    if 0 <= i < j < sorted@.len() {
        assert(b[i] == sorted@[i]@ && b[j] == sorted@[j]@);
    }
    if 0 <= i < texts@.len() {
        assert(a[i] == texts@[i]@);
        assert(a.contains(texts@[i]@));
        vstd::seq_lib::to_multiset_contains(a, texts@[i]@);
        vstd::seq_lib::to_multiset_contains(b, texts@[i]@);
        let k = choose|k: int| 0 <= k < b.len() && b[k] == texts@[i]@;
        assert(sorted@[k]@ == b[k]);
    }
}

} // verus!
