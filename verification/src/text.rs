//! Character-sequence helpers shared by the parsers and formatters.

use vstd::prelude::*;
use vstd::relations::{sorted_by, total_ordering};

verus! {

/// The characters of a string slice, in order.
pub fn chars_of(s: &str) -> (out: Vec<char>)
    ensures
        out@ == s@,
{
    let mut out: Vec<char> = Vec::new();
    for c in it: s.chars()
        invariant
            out@ == it.seq().take(it.index() as int),
            it.seq() == s@,
    {
        out.push(c);
    }
    out
}

/// Collects characters into an owned string (std's `FromIterator<char> for String`).
#[verifier::external_body]
pub(crate) fn string_of(chars: &[char]) -> (s: String)
    ensures
        s@ == chars@,
{
    chars.iter().collect::<String>()
}

/// Whether `c` is one of the ASCII digits `0` to `9`.
pub open spec fn is_digit(c: char) -> bool {
    '0' <= c && c <= '9'
}

/// The numeric value of a digit character.
pub open spec fn digit_value(c: char) -> int {
    c as int - '0' as int
}

/// The character of a single decimal digit.
pub open spec fn digit_char(d: int) -> char {
    (d + '0' as int) as char
}

/// Every character is an ASCII digit.
pub open spec fn all_digits(s: Seq<char>) -> bool {
    forall|i: int| 0 <= i < s.len() ==> is_digit(#[trigger] s[i])
}

/// The value of a string of decimal digits, most significant first.
pub open spec fn digits_value(s: Seq<char>) -> nat
    decreases s.len(),
{
    if s.len() == 0 {
        0
    } else {
        (digits_value(s.drop_last()) * 10 + digit_value(s.last())) as nat
    }
}

/// The digits of an unsigned number after std's optional leading `+`.
pub open spec fn unsigned_digits(s: Seq<char>) -> Seq<char> {
    if s.len() > 0 && s[0] == '+' {
        s.drop_first()
    } else {
        s
    }
}

/// What std's `FromStr` for an unsigned integer type whose maximum is `max` yields for `s`:
/// an optional `+` followed by at least one ASCII digit, with a value of at most `max`.
pub open spec fn parse_unsigned(s: Seq<char>, max: nat) -> Option<nat> {
    let d = unsigned_digits(s);
    if d.len() > 0 && all_digits(d) && digits_value(d) <= max {
        Some(digits_value(d))
    } else {
        None
    }
}

/// The decimal rendering of a natural number, as `to_string` writes it.
pub open spec fn decimal(n: nat) -> Seq<char>
    decreases n,
{
    if n < 10 {
        seq![digit_char(n as int)]
    } else {
        decimal(n / 10).push(digit_char((n % 10) as int))
    }
}

/// The decimal rendering of a number is a nonempty run of digits worth that number, so an
/// unsigned parse with a large enough maximum reads it back.
pub proof fn lemma_decimal_reads_back(n: nat, max: nat)
    ensures
        decimal(n).len() > 0,
        all_digits(decimal(n)),
        digits_value(decimal(n)) == n,
        n <= max ==> parse_unsigned(decimal(n), max) == Some(n),
    decreases n,
{
    if n >= 10 {
        lemma_decimal_reads_back(n / 10, max);
        let d = decimal(n);
        assert(d.drop_last() =~= decimal(n / 10));
        assert(digit_value(d.last()) == n % 10);
        assert((n / 10) * 10 + n % 10 == n) by (nonlinear_arith);
        assert(digits_value(d) == digits_value(d.drop_last()) * 10 + digit_value(d.last()));
        assert forall|i: int| 0 <= i < d.len() implies is_digit(#[trigger] d[i]) by {
            if i < d.len() - 1 {
                assert(d[i] == decimal(n / 10)[i]);
            }
        }
    }
    else {
        assert(decimal(n).drop_last() =~= Seq::<char>::empty());
        assert(digits_value(decimal(n)) == digits_value(decimal(n).drop_last()) * 10 + digit_value(decimal(n).last()));
    }
    assert(is_digit(decimal(n)[0]));
    assert(unsigned_digits(decimal(n)) == decimal(n));
}

proof fn lemma_digits_value_prefix_monotone(s: Seq<char>, i: int, j: int)
    requires
        0 <= i <= j <= s.len(),
        all_digits(s),
    ensures
        digits_value(s.take(i)) <= digits_value(s.take(j)),
    decreases j - i,
{
    if i < j {
        lemma_digits_value_prefix_monotone(s, i, j - 1);
        assert(s.take(j).drop_last() =~= s.take(j - 1));
        assert(is_digit(s[j - 1]));
    }
}

/// Parses an unsigned decimal number exactly as std's `FromStr` for an unsigned integer
/// type whose maximum is `max` does.
pub fn parse_unsigned_exec(s: &[char], max: u64) -> (out: Option<u64>)
    ensures
        match out {
            Some(v) => parse_unsigned(s@, max as nat) == Some(v as nat),
            None => parse_unsigned(s@, max as nat) is None,
        },
{
    let start: usize = if s.len() > 0 && s[0] == '+' { 1 } else { 0 };
    let ghost d = unsigned_digits(s@);
    assert(d =~= s@.subrange(start as int, s@.len() as int));
    if start >= s.len() {
        return None;
    }
    let mut value: u64 = 0;
    let mut i: usize = start;
    while i < s.len()
        invariant
            start <= i <= s.len(),
            d == unsigned_digits(s@),
            d =~= s@.subrange(start as int, s@.len() as int),
            value as nat == digits_value(d.take(i - start)),
            value <= max,
            forall|k: int| 0 <= k < i - start ==> is_digit(#[trigger] d[k]),
        decreases s.len() - i,
    {
        let c = s[i];
        if !('0' <= c && c <= '9') {
            assert(!is_digit(d[i - start]));
            assert(!all_digits(d));
            return None;
        }
        let digit: u64 = (c as u32 - '0' as u32) as u64;
        assert(d.take(i - start + 1).drop_last() =~= d.take(i - start));
        if digit > max || value > (max - digit) / 10 {
            proof {
                assert(all_digits(d.take(i - start + 1)));
                assert(digits_value(d.take(i - start + 1)) == value * 10 + digit);
                if digit <= max {
                    assert(value * 10 + digit > max) by (nonlinear_arith)
                        requires value > (max - digit) / 10, digit <= max;
                }
                if all_digits(d) {
                    lemma_digits_value_prefix_monotone(d, i - start + 1, d.len() as int);
                    assert(d.take(d.len() as int) =~= d);
                }
            }
            return None;
        }
        assert(value * 10 + digit <= max) by (nonlinear_arith)
            requires value <= (max - digit) / 10, digit <= max;
        value = value * 10 + digit;
        i = i + 1;
    }
    assert(d.take(d.len() as int) =~= d);
    Some(value)
}

/// The decimal digits of `n`, most significant first.
pub fn decimal_chars(n: u128) -> (out: Vec<char>)
    ensures
        out@ == decimal(n as nat),
{
    let mut q: u128 = n;
    let mut suffix: Vec<char> = Vec::new();
    while q >= 10
        invariant
            decimal(n as nat) == decimal(q as nat) + suffix@,
        decreases q,
    {
        let d = (q % 10) as u32;
        let c = char_of_digit(d);
        proof {
            assert(decimal(q as nat) == decimal((q / 10) as nat).push(digit_char((q % 10) as int)));
            assert(decimal((q / 10) as nat) + seq![c] + suffix@ =~= decimal((q / 10) as nat).push(c) + suffix@);
        }
        suffix.insert(0, c);
        assert(suffix@ =~= seq![c] + suffix@.subrange(1, suffix@.len() as int));
        q = q / 10;
    }
    let c = char_of_digit(q as u32);
    let mut out = vec![c];
    out.append(&mut suffix);
    out
}

fn char_of_digit(d: u32) -> (c: char)
    requires
        d < 10,
    ensures
        c == digit_char(d as int),
{
    let digits = ['0', '1', '2', '3', '4', '5', '6', '7', '8', '9'];
    digits[d as usize]
}

} // verus!

verus! {

/// The position of the first element of `s` that satisfies `pred`.
pub open spec fn first_index(s: Seq<char>, pred: spec_fn(char) -> bool) -> Option<int>
    decreases s.len(),
{
    if s.len() == 0 {
        None
    } else if pred(s[0]) {
        Some(0)
    } else {
        match first_index(s.drop_first(), pred) {
            Some(i) => Some(i + 1),
            None => None,
        }
    }
}

/// `first_index` is the minimal matching position.
pub proof fn lemma_first_index(s: Seq<char>, pred: spec_fn(char) -> bool, i: int)
    requires
        0 <= i <= s.len(),
        forall|j: int| 0 <= j < i ==> !pred(#[trigger] s[j]),
    ensures
        i < s.len() && pred(s[i]) ==> first_index(s, pred) == Some(i),
        i == s.len() ==> first_index(s, pred) is None,
    decreases i,
{
    if i > 0 {
        lemma_first_index(s.drop_first(), pred, i - 1);
        assert(!pred(s[0]));
    } else if s.len() > 0 {
        assert(first_index(s, pred) == (if pred(s[0]) { Some(0int) } else {
            match first_index(s.drop_first(), pred) { Some(k) => Some(k + 1), None => None }
        }));
    }
}

/// An owned copy of a string slice.
pub fn owned(s: &str) -> (out: String)
    ensures
        out@ == s@,
{
    s.to_owned()
}

/// The concatenation of two string slices.
pub fn joined(a: &str, b: &str) -> (out: String)
    ensures
        out@ == a@ + b@,
{
    let mut out = a.to_owned();
    out.append(b);
    out
}

} // verus!

verus! {

/// Whether two character slices hold the same characters.
pub fn chars_equal(a: &[char], b: &[char]) -> (eq: bool)
    ensures
        eq == (a@ == b@),
{
    if a.len() != b.len() {
        return false;
    }
    let mut i: usize = 0;
    while i < a.len()
        invariant
            a@.len() == b@.len(),
            i <= a@.len(),
            forall|j: int| 0 <= j < i ==> a@[j] == b@[j],
        decreases a.len() - i,
    {
        if a[i] != b[i] {
            return false;
        }
        i = i + 1;
    }
    assert(a@ =~= b@);
    true
}

/// Whether a string slice equals a literal.
pub fn str_is(value: &str, literal: &str) -> (eq: bool)
    ensures
        eq == (value@ == literal@),
{
    let a = chars_of(value);
    let b = chars_of(literal);
    chars_equal(a.as_slice(), b.as_slice())
}

} // verus!

verus! {

/// Names the text that std's `String::from_utf8_lossy` makes of some bytes: valid UTF-8 is
/// decoded and each invalid sequence becomes U+FFFD.
pub uninterp spec fn utf8_lossy(bytes: Seq<u8>) -> Seq<char>;

/// Decodes bytes as UTF-8, replacing invalid sequences (std's `String::from_utf8_lossy`).
/// The contract names the result, and states what std documents of valid UTF-8: it comes back
/// as the text it encodes.
#[verifier::external_body]
pub(crate) fn lossy_text(bytes: &[u8]) -> (s: String)
    ensures
        s@ == utf8_lossy(bytes@),
        vstd::utf8::valid_utf8(bytes@) ==> s@ == vstd::utf8::decode_utf8(bytes@),
{
    String::from_utf8_lossy(bytes).into_owned()
}

/// Names what std's `str::to_lowercase` returns: the Unicode lowercase mapping of the text.
pub uninterp spec fn lowercase(s: Seq<char>) -> Seq<char>;

/// The Unicode lowercase form of a string (std's `str::to_lowercase`).
/// The contract names the result, and states the Unicode mapping on ASCII text: `A` to `Z`
/// become `a` to `z` and every other ASCII character stays.
#[verifier::external_body]
pub(crate) fn to_lowercase(s: &str) -> (out: String)
    ensures
        out@ == lowercase(s@),
        (forall|i: int| 0 <= i < s@.len() ==> (s@[i] as u32) < 128) ==> out@ == crate::app::ascii_lowercase(s@),
{
    s.to_lowercase()
}

/// `needle` occurs in `hay` starting at `start`.
pub open spec fn occurs_at(hay: Seq<char>, needle: Seq<char>, start: int) -> bool {
    0 <= start && start + needle.len() <= hay.len() && hay.subrange(start, start + needle.len())
        == needle
}

/// `needle` occurs somewhere in `hay` (std's `str::contains` with a string pattern).
pub open spec fn contains_text(hay: Seq<char>, needle: Seq<char>) -> bool {
    exists|start: int| occurs_at(hay, needle, start)
}

/// Whether `needle` occurs in `hay`.
pub fn contains_chars(hay: &[char], needle: &[char]) -> (found: bool)
    ensures
        found == contains_text(hay@, needle@),
{
    if needle.len() > hay.len() {
        assert forall|start: int| !occurs_at(hay@, needle@, start) by {}
        return false;
    }
    if needle.len() == 0 {
        assert(hay@.subrange(0, 0) =~= needle@);
        assert(occurs_at(hay@, needle@, 0));
        return true;
    }
    let last = hay.len() - needle.len();
    let mut start: usize = 0;
    while start <= last
        invariant
            last == hay@.len() - needle@.len(),
            1 <= needle@.len() <= hay@.len(),
            hay@.len() == hay.len(),
            start <= last + 1,
            forall|k: int| 0 <= k < start ==> !occurs_at(hay@, needle@, k),
        decreases last + 1 - start,
    {
        let mut j: usize = 0;
        let mut same = true;
        while j < needle.len()
            invariant
                start <= last,
                last == hay@.len() - needle@.len(),
                1 <= needle@.len() <= hay@.len(),
                hay@.len() == hay.len(),
            hay@.len() == hay.len(),
                j <= needle@.len(),
                same == (forall|m: int| 0 <= m < j ==> hay@[start + m] == needle@[m]),
            decreases needle.len() - j,
        {
            if hay[start + j] != needle[j] {
                same = false;
            }
            j = j + 1;
        }
        if same {
            assert(hay@.subrange(start as int, start + needle@.len()) =~= needle@);
            assert(occurs_at(hay@, needle@, start as int));
            return true;
        }
        assert(!occurs_at(hay@, needle@, start as int)) by {
            if hay@.subrange(start as int, start + needle@.len()) == needle@ {
                assert forall|m: int| 0 <= m < needle@.len() implies hay@[start + m] == needle@[m] by {
                    assert(hay@.subrange(start as int, start + needle@.len())[m] == hay@[start + m]);
                }
            }
        }
        start = start + 1;
    }
    assert forall|k: int| !occurs_at(hay@, needle@, k) by {
        if 0 <= k < start {
        }
    }
    false
}

/// The position of the first occurrence of `x` in `s`.
pub open spec fn position_of<T>(s: Seq<T>, x: T) -> Option<int>
    decreases s.len(),
{
    if s.len() == 0 {
        None
    } else if s[0] == x {
        Some(0)
    } else {
        match position_of(s.drop_first(), x) {
            Some(i) => Some(i + 1),
            None => None,
        }
    }
}

/// `position_of` is the minimal position holding `x`.
pub proof fn lemma_position_of<T>(s: Seq<T>, x: T, i: int)
    requires
        0 <= i <= s.len(),
        forall|j: int| 0 <= j < i ==> #[trigger] s[j] != x,
    ensures
        i < s.len() && s[i] == x ==> position_of(s, x) == Some(i),
        i == s.len() ==> position_of(s, x) is None,
    decreases i,
{
    if i > 0 {
        assert forall|j: int| 0 <= j < i - 1 implies #[trigger] s.drop_first()[j] != x by {
            assert(s.drop_first()[j] == s[j + 1]);
        }
        lemma_position_of(s.drop_first(), x, i - 1);
        assert(s[0] != x);
    }
}

/// Whatever `position_of` finds holds `x`, and nothing before it does.
pub proof fn lemma_position_of_found<T>(s: Seq<T>, x: T)
    ensures
        match position_of(s, x) {
            Some(i) => 0 <= i < s.len() && s[i] == x && forall|j: int| 0 <= j < i ==> s[j] != x,
            None => !s.contains(x),
        },
    decreases s.len(),
{
    if s.len() > 0 && s[0] != x {
        lemma_position_of_found(s.drop_first(), x);
        match position_of(s.drop_first(), x) {
            Some(i) => {
                assert forall|j: int| 0 <= j < i + 1 implies s[j] != x by {
                    if j > 0 {
                        assert(s[j] == s.drop_first()[j - 1]);
                    }
                }
            },
            None => {
                assert forall|j: int| 0 <= j < s.len() implies s[j] != x by {
                    if j > 0 {
                        assert(s[j] == s.drop_first()[j - 1]);
                        assert(s.drop_first().contains(s[j]));
                    }
                }
            },
        }
    }
}

} // verus!

verus! {

/// Lexicographic order of texts by code point, as std orders strings.
pub open spec fn text_le(a: Seq<char>, b: Seq<char>) -> bool
    decreases a.len(),
{
    if a.len() == 0 {
        true
    } else if b.len() == 0 {
        false
    } else if a[0] != b[0] {
        (a[0] as u32) < (b[0] as u32)
    } else {
        text_le(a.drop_first(), b.drop_first())
    }
}

/// The order of texts as a relation.
pub open spec fn text_order() -> spec_fn(Seq<char>, Seq<char>) -> bool {
    |a: Seq<char>, b: Seq<char>| text_le(a, b)
}

proof fn lemma_text_le_reflexive(a: Seq<char>)
    ensures
        text_le(a, a),
    decreases a.len(),
{
    if a.len() > 0 {
        lemma_text_le_reflexive(a.drop_first());
    }
}

proof fn lemma_text_le_antisymmetric(a: Seq<char>, b: Seq<char>)
    requires
        text_le(a, b),
        text_le(b, a),
    ensures
        a == b,
    decreases a.len(),
{
    if a.len() == 0 {
        assert(b.len() == 0);
        assert(a =~= b);
    } else {
        assert(b.len() > 0);
        assert(a[0] == b[0]);
        lemma_text_le_antisymmetric(a.drop_first(), b.drop_first());
        assert forall|i: int| 0 <= i < a.len() implies a[i] == b[i] by {
            if i > 0 {
                assert(a[i] == a.drop_first()[i - 1]);
                assert(b[i] == b.drop_first()[i - 1]);
            }
        }
        assert(a =~= b);
    }
}

proof fn lemma_text_le_transitive(a: Seq<char>, b: Seq<char>, c: Seq<char>)
    requires
        text_le(a, b),
        text_le(b, c),
    ensures
        text_le(a, c),
    decreases a.len(),
{
    if a.len() > 0 && b.len() > 0 && c.len() > 0 && a[0] == b[0] && b[0] == c[0] {
        lemma_text_le_transitive(a.drop_first(), b.drop_first(), c.drop_first());
    }
}

proof fn lemma_text_le_total(a: Seq<char>, b: Seq<char>)
    ensures
        text_le(a, b) || text_le(b, a),
    decreases a.len(),
{
    if a.len() > 0 && b.len() > 0 {
        if a[0] == b[0] {
            lemma_text_le_total(a.drop_first(), b.drop_first());
        } else {
            if (a[0] as u32) == (b[0] as u32) {
                vstd::utf8::char_u32_cast(a[0], a[0] as u32);
                vstd::utf8::char_u32_cast(b[0], b[0] as u32);
            }
        }
    }
}

/// The order of texts is a total order.
pub proof fn lemma_text_order_is_total()
    ensures
        total_ordering(text_order()),
{
    assert forall|a: Seq<char>| #[trigger] text_order()(a, a) by {
        lemma_text_le_reflexive(a);
    }
    assert forall|a: Seq<char>, b: Seq<char>|
        #[trigger] text_order()(a, b) && #[trigger] text_order()(b, a) implies a == b by {
        lemma_text_le_antisymmetric(a, b);
    }
    assert forall|a: Seq<char>, b: Seq<char>, c: Seq<char>|
        #[trigger] text_order()(a, b) && #[trigger] text_order()(b, c) implies text_order()(a, c) by {
        lemma_text_le_transitive(a, b, c);
    }
    assert forall|a: Seq<char>, b: Seq<char>|
        #[trigger] text_order()(a, b) || #[trigger] text_order()(b, a) by {
        lemma_text_le_total(a, b);
    }
}

/// Whether `a` comes no later than `b` in the order of texts.
pub fn text_le_exec(a: &[char], b: &[char]) -> (le: bool)
    ensures
        le == text_le(a@, b@),
{
    let mut i: usize = 0;
    assert(a@.skip(0) =~= a@);
    assert(b@.skip(0) =~= b@);
    while i < a.len() && i < b.len()
        invariant
            i <= a@.len(),
            i <= b@.len(),
            text_le(a@, b@) == text_le(a@.skip(i as int), b@.skip(i as int)),
        decreases a.len() - i,
    {
        assert(a@.skip(i as int).drop_first() =~= a@.skip(i as int + 1));
        assert(b@.skip(i as int).drop_first() =~= b@.skip(i as int + 1));
        if a[i] != b[i] {
            return (a[i] as u32) < (b[i] as u32);
        }
        i = i + 1;
    }
    i == a.len()
}

/// The texts of a sequence of strings.
pub open spec fn texts(items: Seq<String>) -> Seq<Seq<char>> {
    items.map_values(|s: String| s@)
}

/// Sorts strings in the order of texts.
pub fn sort_texts(items: Vec<String>) -> (out: Vec<String>)
    ensures
        texts(out@) == texts(items@).sort_by(text_order()),
{
    broadcast use vstd::seq_lib::group_to_multiset_ensures;
    let ghost all = texts(items@);
    let mut rest = items;
    let mut out: Vec<String> = Vec::new();
    proof {
        lemma_text_order_is_total();
        assert(texts(out@) =~= Seq::<Seq<char>>::empty());
    }
    while rest.len() > 0
        invariant
            total_ordering(text_order()),
            sorted_by(texts(out@), text_order()),
            texts(out@).to_multiset().add(texts(rest@).to_multiset()) == all.to_multiset(),
        decreases rest.len(),
    {
        let ghost before_rest = texts(rest@);
        let ghost before_out = texts(out@);
        let item = rest.pop().unwrap();
        assert(before_rest =~= texts(rest@).push(item@));
        let item_chars = chars_of(item.as_str());
        let mut j: usize = 0;
        while j < out.len()
            invariant
                j <= out@.len(),
                texts(out@) == before_out,
                item_chars@ == item@,
                forall|k: int| 0 <= k < j ==> text_le(#[trigger] before_out[k], item@),
            ensures
                j <= out@.len(),
                texts(out@) == before_out,
                forall|k: int| 0 <= k < j ==> text_le(#[trigger] before_out[k], item@),
                j < out@.len() ==> !text_le(before_out[j as int], item@),
            decreases out.len() - j,
        {
            let current = chars_of(out[j].as_str());
            if !text_le_exec(current.as_slice(), item_chars.as_slice()) {
                break;
            }
            j = j + 1;
        }
        assert(j as int <= before_out.len());
        out.insert(j, item);
        proof {
            let now = texts(out@);
            assert(now =~= before_out.insert(j as int, item@));
            assert forall|a: int, b: int| 0 <= a < b < now.len() implies #[trigger] text_order()(now[a], now[b]) by {
                if b < j {
                } else if b == j {
                    assert(text_le(before_out[a], item@));
                } else if a == j {
                    assert(now[b] == before_out[b - 1]);
                    assert(!text_le(before_out[j as int], item@));
                    lemma_text_le_total(before_out[j as int], item@);
                    if j as int != b - 1 {
                        assert(text_order()(before_out[j as int], before_out[b - 1]));
                    } else {
                        lemma_text_le_reflexive(before_out[j as int]);
                    }
                    lemma_text_le_transitive(item@, before_out[j as int], before_out[b - 1]);
                } else if a < j {
                    assert(now[b] == before_out[b - 1]);
                } else {
                    assert(now[a] == before_out[a - 1]);
                    assert(now[b] == before_out[b - 1]);
                }
            }
            vstd::seq_lib::to_multiset_insert(before_out, j as int, item@);
            vstd::seq_lib::to_multiset_build(texts(rest@), item@);
            assert(before_rest.to_multiset() == texts(rest@).to_multiset().insert(item@));
            assert(now.to_multiset().add(texts(rest@).to_multiset()) =~= all.to_multiset());
        }
    }
    proof {
        assert(texts(rest@) =~= Seq::<Seq<char>>::empty());
        assert(texts(out@).to_multiset() =~= all.to_multiset());
        all.lemma_sort_by_ensures(text_order());
        vstd::seq_lib::lemma_sorted_unique(texts(out@), all.sort_by(text_order()), text_order());
    }
    out
}

} // verus!

verus! {

/// Decodes bytes as UTF-8 text (std's `str::from_utf8`): the text when the bytes are valid
/// UTF-8, as vstd's model of UTF-8 decodes them, and nothing otherwise.
#[verifier::external_body]
pub(crate) fn utf8_text(bytes: &[u8]) -> (out: Option<String>)
    ensures
        match out {
            Some(s) => vstd::utf8::valid_utf8(bytes@) && s@ == vstd::utf8::decode_utf8(bytes@),
            None => !vstd::utf8::valid_utf8(bytes@),
        },
{
    match std::str::from_utf8(bytes) {
        Ok(text) => Some(text.to_owned()),
        Err(_) => None,
    }
}

/// The bytes of an ASCII text.
pub open spec fn ascii_bytes(s: Seq<char>) -> Seq<u8> {
    Seq::new(s.len(), |i: int| (s[i] as u32) as u8)
}

/// Whether bytes spell an ASCII literal.
pub fn bytes_are(bytes: &[u8], literal: &str) -> (eq: bool)
    ensures
        eq == (bytes@ == ascii_bytes(literal@)),
{
    let chars = chars_of(literal);
    if bytes.len() != chars.len() {
        return false;
    }
    let mut i: usize = 0;
    while i < bytes.len()
        invariant
            i <= bytes@.len(),
            bytes@.len() == chars@.len(),
            chars@ == literal@,
            forall|j: int| 0 <= j < i ==> bytes@[j] == ((#[trigger] chars@[j]) as u32) as u8,
        decreases bytes.len() - i,
    {
        if bytes[i] != (chars[i] as u32) as u8 {
            assert(bytes@ != ascii_bytes(literal@)) by {
                assert(ascii_bytes(literal@)[i as int] == (chars@[i as int] as u32) as u8);
            }
            return false;
        }
        i = i + 1;
    }
    assert(bytes@ =~= ascii_bytes(literal@));
    true
}

/// The characters after a prefix, when the text starts with it.
pub open spec fn after_prefix(text: Seq<char>, prefix: Seq<char>) -> Option<Seq<char>> {
    if text.len() >= prefix.len() && text.take(prefix.len() as int) == prefix {
        Some(text.skip(prefix.len() as int))
    } else {
        None
    }
}

/// The characters after a prefix, when the text starts with it.
pub fn strip_prefix_chars(text: &[char], prefix: &str) -> (out: Option<Vec<char>>)
    ensures
        match out {
            Some(rest) => after_prefix(text@, prefix@) == Some(rest@),
            None => after_prefix(text@, prefix@) is None,
        },
{
    let p = chars_of(prefix);
    if text.len() < p.len() {
        return None;
    }
    let mut i: usize = 0;
    while i < p.len()
        invariant
            i <= p@.len(),
            p@.len() <= text@.len(),
            p@ == prefix@,
            forall|j: int| 0 <= j < i ==> text@[j] == p@[j],
        decreases p.len() - i,
    {
        if text[i] != p[i] {
            assert(text@.take(p@.len() as int)[i as int] != prefix@[i as int]);
            return None;
        }
        i = i + 1;
    }
    assert(text@.take(p@.len() as int) =~= prefix@);
    let mut rest: Vec<char> = Vec::new();
    let mut k: usize = p.len();
    while k < text.len()
        invariant
            p@.len() <= k <= text@.len(),
            rest@ == text@.subrange(p@.len() as int, k as int),
        decreases text.len() - k,
    {
        rest.push(text[k]);
        k = k + 1;
        assert(rest@ =~= text@.subrange(p@.len() as int, k as int));
    }
    assert(rest@ =~= text@.skip(p@.len() as int));
    Some(rest)
}

} // verus!
