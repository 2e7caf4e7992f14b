//! Text as the library reads it: sequences of characters, their length in
//! UTF-8 bytes, white space, and decimal numbers.
use vstd::prelude::*;
use vstd::string::*;
use vstd::utf8::*;

verus! {

/// `String::push`: appends the character to the end of the string.
pub assume_specification[ String::push ](s: &mut String, c: char)
    ensures
        final(s)@ == old(s)@.push(c),
;

/// The control characters (general category Cc): C0, DEL and C1.
pub open spec fn is_control_char(c: char) -> bool {
    ||| (c as u32) <= 0x1F
    ||| 0x7F <= (c as u32) <= 0x9F
}

/// The characters with the Unicode property `White_Space`.
pub open spec fn is_space_char(c: char) -> bool {
    let n = c as u32;
    ||| 0x9 <= n <= 0xD
    ||| n == 0x20
    ||| n == 0x85
    ||| n == 0xA0
    ||| n == 0x1680
    ||| 0x2000 <= n <= 0x200A
    ||| n == 0x2028
    ||| n == 0x2029
    ||| n == 0x202F
    ||| n == 0x205F
    ||| n == 0x3000
}

/// How many bytes UTF-8 spends on one character.
pub open spec fn char_bytes(c: char) -> nat {
    let n = c as u32;
    if n <= 0x7F {
        1
    } else if n <= 0x7FF {
        2
    } else if n <= 0xFFFF {
        3
    } else {
        4
    }
}

/// How many bytes UTF-8 spends on a text.
pub open spec fn utf8_len(s: Seq<char>) -> nat
    decreases s.len(),
{
    if s.len() == 0 {
        0
    } else {
        utf8_len(s.drop_last()) + char_bytes(s.last())
    }
}

/// How many leading characters of `s` fit in `room` bytes.
pub open spec fn fitting(s: Seq<char>, room: int) -> nat
    decreases s.len(),
{
    if s.len() == 0 || char_bytes(s[0]) > room {
        0
    } else {
        1 + fitting(s.drop_first(), room - char_bytes(s[0]))
    }
}

/// `s` without its trailing white space.
pub open spec fn trim_end_text(s: Seq<char>) -> Seq<char>
    decreases s.len(),
{
    if s.len() > 0 && is_space_char(s.last()) {
        trim_end_text(s.drop_last())
    } else {
        s
    }
}

/// `s` without its trailing occurrences of `c`.
pub open spec fn trim_end_char(s: Seq<char>, c: char) -> Seq<char>
    decreases s.len(),
{
    if s.len() > 0 && s.last() == c {
        trim_end_char(s.drop_last(), c)
    } else {
        s
    }
}

/// `s` without its leading white space.
pub open spec fn trim_start_text(s: Seq<char>) -> Seq<char>
    decreases s.len(),
{
    if s.len() > 0 && is_space_char(s[0]) {
        trim_start_text(s.drop_first())
    } else {
        s
    }
}

/// `s` without white space at either end.
pub open spec fn trim_text(s: Seq<char>) -> Seq<char> {
    trim_end_text(trim_start_text(s))
}

/// The digit of a number below ten.
pub open spec fn digit_char(d: nat) -> char {
    (('0' as u32) + d) as char
}

/// A number in decimal, without leading zeros.
pub open spec fn decimal_text(n: nat) -> Seq<char>
    decreases n,
{
    if n < 10 {
        seq![digit_char(n)]
    } else {
        decimal_text(n / 10).push(digit_char(n % 10))
    }
}

/// The first `n` characters, or all of them where there are fewer.
pub open spec fn take_text(s: Seq<char>, n: int) -> Seq<char> {
    if s.len() <= n {
        s
    } else {
        s.take(n)
    }
}

// ---------------------------------------------------------------------------
// UTF-8 lengths
// ---------------------------------------------------------------------------

proof fn lemma_encode_push(s: Seq<char>, c: char)
    ensures
        encode_utf8(s.push(c)) == encode_utf8(s) + encode_scalar(c as u32),
    decreases s.len(),
{
    let t = s.push(c);
    if s.len() == 0 {
        assert(t.drop_first() =~= Seq::<char>::empty());
        assert(encode_utf8(t) =~= encode_scalar(c as u32) + encode_utf8(t.drop_first()));
        assert(encode_utf8(t) =~= encode_utf8(s) + encode_scalar(c as u32));
    } else {
        lemma_encode_push(s.drop_first(), c);
        assert(t.drop_first() =~= s.drop_first().push(c));
        assert(encode_utf8(t) =~= encode_utf8(s) + encode_scalar(c as u32));
    }
}

/// The byte count of [`utf8_len`] is that of the UTF-8 encoding.
pub proof fn lemma_utf8_len_is_encoding(s: Seq<char>)
    ensures
        utf8_len(s) == encode_utf8(s).len(),
    decreases s.len(),
{
    if s.len() > 0 {
        lemma_utf8_len_is_encoding(s.drop_last());
        assert(s.drop_last().push(s.last()) =~= s);
        lemma_encode_push(s.drop_last(), s.last());
        char_is_scalar(s.last());
        assert(encode_scalar(s.last() as u32).len() == char_bytes(s.last()));
    }
}

pub proof fn lemma_utf8_len_push(s: Seq<char>, c: char)
    ensures
        utf8_len(s.push(c)) == utf8_len(s) + char_bytes(c),
{
    assert(s.push(c).drop_last() =~= s);
}

pub proof fn lemma_utf8_len_add(a: Seq<char>, b: Seq<char>)
    ensures
        utf8_len(a + b) == utf8_len(a) + utf8_len(b),
    decreases b.len(),
{
    if b.len() == 0 {
        assert(a + b =~= a);
    } else {
        lemma_utf8_len_add(a, b.drop_last());
        assert((a + b).drop_last() =~= a + b.drop_last());
    }
}

pub proof fn lemma_utf8_len_first(s: Seq<char>)
    requires
        s.len() > 0,
    ensures
        utf8_len(s) == char_bytes(s[0]) + utf8_len(s.drop_first()),
{
    assert(seq![s[0]] + s.drop_first() =~= s);
    lemma_utf8_len_add(seq![s[0]], s.drop_first());
    reveal_with_fuel(utf8_len, 2);
    assert(seq![s[0]].drop_last() =~= Seq::<char>::empty());
    assert(utf8_len(seq![s[0]]) == char_bytes(s[0]));
}

/// What fits is the longest prefix whose bytes fit.
pub proof fn lemma_fitting(s: Seq<char>, room: int)
    ensures
        fitting(s, room) <= s.len(),
        room >= 0 ==> utf8_len(s.take(fitting(s, room) as int)) <= room,
        room < 0 ==> fitting(s, room) == 0,
        forall|k: int| fitting(s, room) < k <= s.len() ==> #[trigger] utf8_len(s.take(k)) > room,
        fitting(s, room) == s.len() <==> s.len() == 0 || utf8_len(s) <= room,
    decreases s.len(),
{
    if s.len() == 0 || char_bytes(s[0]) > room {
        assert(s.take(0) =~= Seq::<char>::empty());
        assert forall|k: int| 0 < k <= s.len() implies #[trigger] utf8_len(s.take(k)) > room by {
            lemma_utf8_len_first(s.take(k));
        }
        if s.len() > 0 {
            assert(s.take(s.len() as int) =~= s);
            lemma_utf8_len_first(s);
        }
    } else {
        let rest = s.drop_first();
        let left = room - char_bytes(s[0]);
        lemma_fitting(rest, left);
        let k = fitting(s, room);
        assert(s.take(k as int).drop_first() =~= rest.take(k - 1));
        lemma_utf8_len_first(s.take(k as int));
        assert forall|j: int| k < j <= s.len() implies #[trigger] utf8_len(s.take(j)) > room by {
            assert(s.take(j).drop_first() =~= rest.take(j - 1));
            lemma_utf8_len_first(s.take(j));
        }
        lemma_utf8_len_first(s);
    }
}

// ---------------------------------------------------------------------------
// Executable helpers
// ---------------------------------------------------------------------------

/// Whether the character is a control character.
pub fn is_control(c: char) -> (b: bool)
    ensures
        b == is_control_char(c),
{
    let n: u32 = c as u32;
    n <= 0x1F || (0x7F <= n && n <= 0x9F)
}

/// Whether the character is white space.
pub fn is_whitespace(c: char) -> (b: bool)
    ensures
        b == is_space_char(c),
{
    let n: u32 = c as u32;
    (0x9 <= n && n <= 0xD) || n == 0x20 || n == 0x85 || n == 0xA0 || n == 0x1680 || (0x2000 <= n
        && n <= 0x200A) || n == 0x2028 || n == 0x2029 || n == 0x202F || n == 0x205F || n == 0x3000
}

/// The number of bytes that UTF-8 spends on the character.
pub fn char_len(c: char) -> (n: usize)
    ensures
        n == char_bytes(c),
{
    let u: u32 = c as u32;
    if u <= 0x7F {
        1
    } else if u <= 0x7FF {
        2
    } else if u <= 0xFFFF {
        3
    } else {
        4
    }
}

/// The number of bytes of the text.
pub fn byte_len(s: &str) -> (n: usize)
    ensures
        n == utf8_len(s@),
{
    proof {
        lemma_utf8_len_is_encoding(s@);
    }
    s.as_bytes().len()
}

/// The characters of the text.
pub fn chars_of(s: &str) -> (v: Vec<char>)
    ensures
        v@ == s@,
{
    let mut v: Vec<char> = Vec::new();
    for c in it: s.chars()
        invariant
            it.seq() == s@,
            v@ == s@.take(it.index() as int),
    {
        v.push(c);
        assert(s@.take(it.index() + 1) =~= s@.take(it.index() as int).push(c));
    }
    assert(s@.take(s@.len() as int) =~= s@);
    v
}

/// The text that the characters spell.
pub fn text_of(chars: &[char]) -> (s: String)
    ensures
        s@ == chars@,
{
    let mut s = String::new();
    let mut i: usize = 0;
    while i < chars.len()
        invariant
            i <= chars@.len(),
            s@ == chars@.take(i as int),
        decreases chars@.len() - i,
    {
        s.push(chars[i]);
        i = i + 1;
        assert(chars@.take(i as int) =~= chars@.take(i - 1).push(chars@[i - 1]));
    }
    assert(chars@.take(i as int) =~= chars@);
    s
}

/// The number of characters in the text.
pub fn char_count(s: &str) -> (n: usize)
    ensures
        n == s@.len(),
{
    s.unicode_len()
}

/// The text without trailing white space.
pub fn trim_end(s: &str) -> (r: String)
    ensures
        r@ == trim_end_text(s@),
{
    let mut chars = chars_of(s);
    while chars.len() > 0 && is_whitespace(chars[chars.len() - 1])
        invariant
            trim_end_text(chars@) == trim_end_text(s@),
        ensures
            trim_end_text(chars@) == trim_end_text(s@),
            chars@.len() == 0 || !is_space_char(chars@.last()),
        decreases chars@.len(),
    {
        let ghost before = chars@;
        let _ = chars.pop();
        assert(chars@ =~= before.drop_last());
    }
    text_of(chars.as_slice())
}

/// The text without the trailing occurrences of `c`.
pub fn trim_end_matches(s: &str, c: char) -> (r: String)
    ensures
        r@ == trim_end_char(s@, c),
{
    let mut chars = chars_of(s);
    while chars.len() > 0 && chars[chars.len() - 1] == c
        invariant
            trim_end_char(chars@, c) == trim_end_char(s@, c),
        ensures
            trim_end_char(chars@, c) == trim_end_char(s@, c),
            chars@.len() == 0 || chars@.last() != c,
        decreases chars@.len(),
    {
        let ghost before = chars@;
        let _ = chars.pop();
        assert(chars@ =~= before.drop_last());
    }
    text_of(chars.as_slice())
}

/// The text without white space at either end.
pub fn trim(s: &str) -> (r: String)
    ensures
        r@ == trim_text(s@),
{
    let chars = chars_of(s);
    let mut i: usize = 0;
    assert(s@.skip(0) =~= s@);
    while i < chars.len() && is_whitespace(chars[i])
        invariant
            chars@ == s@,
            i <= chars@.len(),
            trim_start_text(s@) == trim_start_text(s@.skip(i as int)),
        ensures
            chars@ == s@,
            i <= chars@.len(),
            trim_start_text(s@) == s@.skip(i as int),
        decreases chars@.len() - i,
    {
        assert(s@.skip(i as int).drop_first() =~= s@.skip(i + 1));
        i = i + 1;
    }
    let mut rest: Vec<char> = Vec::new();
    let mut j: usize = i;
    while j < chars.len()
        invariant
            chars@ == s@,
            i <= j <= chars@.len(),
            rest@ == s@.subrange(i as int, j as int),
        decreases chars@.len() - j,
    {
        rest.push(chars[j]);
        j = j + 1;
        assert(s@.subrange(i as int, j as int) =~= s@.subrange(i as int, j - 1).push(s@[j - 1]));
    }
    assert(rest@ =~= s@.skip(i as int));
    let out = text_of(rest.as_slice());
    trim_end(out.as_str())
}

/// Appends a number in decimal.
pub fn push_decimal(out: &mut String, n: usize)
    ensures
        final(out)@ == old(out)@ + decimal_text(n as nat),
    decreases n,
{
    if n >= 10 {
        push_decimal(out, n / 10);
    }
    let d: u8 = (n % 10) as u8;
    let c: char = (48u8 + d) as char;
    out.push(c);
    assert(c == digit_char((n % 10) as nat));
    assert(out@ =~= old(out)@ + decimal_text(n as nat));
}

/// The first `max` characters of the text.
pub fn take_chars(s: &str, max: usize) -> (r: String)
    ensures
        r@ == take_text(s@, max as int),
{
    let n: usize = s.unicode_len();
    if n <= max {
        s.to_owned()
    } else {
        s.substring_char(0, max).to_owned()
    }
}

/// Drops the last character, where there is one.
pub fn pop_char(s: &mut String)
    ensures
        final(s)@ == (if old(s)@.len() == 0 { old(s)@ } else { old(s)@.drop_last() }),
{
    let n: usize = s.as_str().unicode_len();
    if n > 0 {
        let cut = s.as_str().substring_char(0, n - 1).to_owned();
        assert(cut@ =~= s@.drop_last());
        *s = cut;
    }
}

/// Whether two texts are the same.
pub fn same_text(a: &str, b: &str) -> (same: bool)
    ensures
        same == (a@ == b@),
{
    a.to_owned() == b.to_owned()
}

/// What a list of texts holds.
pub open spec fn texts(list: Seq<String>) -> Seq<Seq<char>> {
    Seq::new(list.len(), |i: int| list[i]@)
}

/// Whether the list holds the text.
pub fn has_text(list: &Vec<String>, t: &str) -> (b: bool)
    ensures
        b == texts(list@).contains(t@),
{
    let ghost all = texts(list@);
    let mut i: usize = 0;
    while i < list.len()
        invariant
            i <= list@.len(),
            all == texts(list@),
            forall|k: int| 0 <= k < i ==> #[trigger] all[k] != t@,
        decreases list@.len() - i,
    {
        if same_text(list[i].as_str(), t) {
            assert(all[i as int] == t@);
            return true;
        }
        i = i + 1;
    }
    false
}

/// The list without a text.
pub open spec fn without_text(list: Seq<Seq<char>>, t: Seq<char>) -> Seq<Seq<char>>
    decreases list.len(),
{
    if list.len() == 0 {
        list
    } else if list.last() == t {
        without_text(list.drop_last(), t)
    } else {
        without_text(list.drop_last(), t).push(list.last())
    }
}

/// Drops every occurrence of the text from the list.
pub fn drop_text(list: &mut Vec<String>, t: &str)
    ensures
        texts(final(list)@) == without_text(texts(old(list)@), t@),
{
    let ghost all = texts(list@);
    let mut out: Vec<String> = Vec::new();
    let mut i: usize = 0;
    assert(all.take(0) =~= Seq::<Seq<char>>::empty());
    assert(texts(out@) =~= Seq::<Seq<char>>::empty());
    while i < list.len()
        invariant
            i <= list@.len(),
            all == texts(list@),
            texts(out@) == without_text(all.take(i as int), t@),
        decreases list@.len() - i,
    {
        assert(all.take(i + 1).drop_last() =~= all.take(i as int));
        let ghost before = texts(out@);
        if !same_text(list[i].as_str(), t) {
            out.push(list[i].clone());
            assert(texts(out@) =~= before.push(all[i as int]));
        }
        i = i + 1;
    }
    assert(all.take(i as int) =~= all);
    *list = out;
}

/// A copy of the list.
pub fn copy_texts(list: &Vec<String>) -> (out: Vec<String>)
    ensures
        out@ == list@,
{
    let mut out: Vec<String> = Vec::new();
    let mut i: usize = 0;
    while i < list.len()
        invariant
            i <= list@.len(),
            out@ == list@.take(i as int),
        decreases list@.len() - i,
    {
        out.push(list[i].clone());
        i = i + 1;
        assert(out@ =~= list@.take(i as int));
    }
    assert(out@ =~= list@);
    out
}

/// What an optional text holds.
pub open spec fn opt_text(t: Option<String>) -> Option<Seq<char>> {
    match t {
        Some(s) => Some(s@),
        None => None,
    }
}

/// A copy of an optional text.
pub fn copy_opt(t: &Option<String>) -> (out: Option<String>)
    ensures
        out == *t,
{
    match t {
        Some(s) => Some(s.clone()),
        None => None,
    }
}

// ---------------------------------------------------------------------------
// The order of texts
// ---------------------------------------------------------------------------

/// Whether one text comes before another, character by character.
pub open spec fn text_less(a: Seq<char>, b: Seq<char>) -> bool
    decreases a.len(),
{
    if b.len() == 0 {
        false
    } else if a.len() == 0 {
        true
    } else if a[0] != b[0] {
        a[0] < b[0]
    } else {
        text_less(a.drop_first(), b.drop_first())
    }
}

/// Of two texts one comes before the other, or they are the same.
pub proof fn lemma_text_order_total(a: Seq<char>, b: Seq<char>)
    ensures
        text_less(a, b) || text_less(b, a) || a == b,
        !(text_less(a, b) && text_less(b, a)),
        text_less(a, b) ==> a != b,
    decreases a.len(),
{
    if a.len() > 0 && b.len() > 0 && a[0] == b[0] {
        lemma_text_order_total(a.drop_first(), b.drop_first());
        if a.drop_first() == b.drop_first() {
            assert(a =~= seq![a[0]] + a.drop_first());
            assert(b =~= seq![b[0]] + b.drop_first());
        }
    } else if a.len() == 0 && b.len() == 0 {
        assert(a =~= b);
    }
}

/// What comes before a text comes before all that follow it.
pub proof fn lemma_text_order_transitive(a: Seq<char>, b: Seq<char>, c: Seq<char>)
    requires
        text_less(a, b),
        text_less(b, c),
    ensures
        text_less(a, c),
    decreases a.len(),
{
    if a.len() > 0 && b.len() > 0 && c.len() > 0 && a[0] == b[0] && b[0] == c[0] {
        lemma_text_order_transitive(a.drop_first(), b.drop_first(), c.drop_first());
    }
}

/// Whether one character comes before another.
fn char_less(c: char, d: char) -> (less: bool)
    ensures
        less == (c < d),
{
    assert(c <= 0x10FFFF && d <= 0x10FFFF);
    assert(c as u32 == c);
    (c as u32) < (d as u32)
}

/// Whether one text comes before another.
pub fn is_less(a: &str, b: &str) -> (less: bool)
    ensures
        less == text_less(a@, b@),
{
    let x = chars_of(a);
    let y = chars_of(b);
    let mut i: usize = 0;
    assert(x@.skip(0) =~= x@);
    assert(y@.skip(0) =~= y@);
    while i < x.len() && i < y.len()
        invariant
            i <= x@.len(),
            i <= y@.len(),
            x@ == a@,
            y@ == b@,
            text_less(x@, y@) == text_less(x@.skip(i as int), y@.skip(i as int)),
        decreases x@.len() - i,
    {
        let c: char = x[i];
        let d: char = y[i];
        assert(x@.skip(i as int)[0] == c && y@.skip(i as int)[0] == d);
        if c != d {
            assert(x@.skip(i as int).len() > 0 && y@.skip(i as int).len() > 0);
            return char_less(c, d);
        }
        assert(x@.skip(i as int).drop_first() =~= x@.skip(i + 1));
        assert(y@.skip(i as int).drop_first() =~= y@.skip(i + 1));
        i = i + 1;
    }
    assert(x@.skip(i as int).len() == x@.len() - i);
    assert(y@.skip(i as int).len() == y@.len() - i);
    i < y.len()
}

/// Whether the texts are in strict order.
pub open spec fn in_order(list: Seq<Seq<char>>) -> bool {
    forall|i: int, j: int|
        0 <= i < j < list.len() ==> text_less(#[trigger] list[i], #[trigger] list[j])
}

/// Puts a text into an ordered list that does not need to hold it twice.
pub fn insert_in_order(list: &mut Vec<String>, t: String)
    requires
        in_order(texts(old(list)@)),
    ensures
        in_order(texts(final(list)@)),
        forall|x: Seq<char>| #[trigger]
            texts(final(list)@).contains(x) == (texts(old(list)@).contains(x) || x == t@),
{
    let ghost before = texts(list@);
    let ghost new = t@;
    let mut i: usize = 0;
    while i < list.len() && is_less(list[i].as_str(), t.as_str())
        invariant
            i <= list@.len(),
            new == t@,
            before == texts(list@),
            forall|k: int| 0 <= k < i ==> text_less(#[trigger] before[k], new),
        decreases list@.len() - i,
    {
        i = i + 1;
    }
    if i < list.len() && same_text(list[i].as_str(), t.as_str()) {
        proof {
            assert(before[i as int] == new);
            assert forall|x: Seq<char>| #[trigger]
                texts(list@).contains(x) == (before.contains(x) || x == new) by {
                if x == new {
                    assert(before.contains(x));
                }
            }
        }
        return ;
    }
    list.insert(i, t);
    proof {
        let after = texts(list@);
        assert(after =~= before.insert(i as int, new));
        if i < before.len() {
            lemma_text_order_total(before[i as int], new);
        }
        assert forall|a: int, b: int| 0 <= a < b < after.len() implies text_less(
            #[trigger] after[a],
            #[trigger] after[b],
        ) by {
            let x = if a < i {
                a
            } else {
                a - 1
            };
            let y = if b < i {
                b
            } else {
                b - 1
            };
            if a == i {
                assert(after[b] == before[y]);
                if y > i {
                    lemma_text_order_transitive(new, before[i as int], before[y]);
                }
            } else if b == i {
                assert(after[a] == before[x]);
            } else {
                assert(after[a] == before[x] && after[b] == before[y]);
            }
        }
        assert forall|x: Seq<char>| #[trigger]
            after.contains(x) == (before.contains(x) || x == new) by {
            if after.contains(x) {
                let k = choose|k: int| 0 <= k < after.len() && after[k] == x;
                if k != i {
                    let m = if k < i {
                        k
                    } else {
                        k - 1
                    };
                    assert(before[m] == x);
                }
            }
            if before.contains(x) {
                let k = choose|k: int| 0 <= k < before.len() && before[k] == x;
                let m = if k < i {
                    k
                } else {
                    k + 1
                };
                assert(after[m] == x);
            }
            if x == new {
                assert(after[i as int] == x);
            }
        }
    }
}

/// What one more element of a list adds to what was taken of it.
pub proof fn lemma_take_contains<A>(s: Seq<A>, n: int)
    requires
        0 <= n < s.len(),
    ensures
        forall|x: A| #[trigger]
            s.take(n + 1).contains(x) == (s.take(n).contains(x) || x == s[n]),
{
    assert(s.take(n + 1) =~= s.take(n).push(s[n]));
    assert forall|x: A| #[trigger] s.take(n + 1).contains(x) == (s.take(n).contains(x) || x
        == s[n]) by {
        lemma_push_has(s.take(n), s[n], x);
    }
}

/// What one more element adds to a list.
pub proof fn lemma_push_has<A>(s: Seq<A>, y: A, x: A)
    ensures
        s.push(y).contains(x) == (s.contains(x) || x == y),
{
    let t = s.push(y);
    if s.contains(x) {
        let k = choose|k: int| 0 <= k < s.len() && s[k] == x;
        assert(t[k] == x);
    }
    if t.contains(x) {
        let k = choose|k: int| 0 <= k < t.len() && t[k] == x;
        if k < s.len() {
            assert(s[k] == x);
        }
    }
    assert(t[s.len() as int] == y);
}

/// Two ordered lists of the same texts are the same.
pub proof fn lemma_ordered_lists_agree(a: Seq<Seq<char>>, b: Seq<Seq<char>>)
    requires
        in_order(a),
        in_order(b),
        forall|x: Seq<char>| #[trigger] a.contains(x) == b.contains(x),
    ensures
        a == b,
    decreases a.len(),
{
    if a.len() == 0 {
        if b.len() > 0 {
            assert(b.contains(b[0]));
            assert(a.contains(b[0]));
        }
        assert(a =~= b);
    } else {
        assert(a.contains(a.last()));
        assert(b.contains(a.last()));
        assert(b.len() > 0);
        assert(b.contains(b.last()));
        assert(a.contains(b.last()));
        let i = choose|i: int| 0 <= i < a.len() && a[i] == b.last();
        let j = choose|j: int| 0 <= j < b.len() && b[j] == a.last();
        lemma_text_order_total(a.last(), b.last());
        assert(a.last() == b.last()) by {
            if i < a.len() - 1 && j < b.len() - 1 {
                assert(text_less(a[i], a[a.len() - 1]));
                assert(text_less(b[j], b[b.len() - 1]));
            }
        }
        let x = a.drop_last();
        let y = b.drop_last();
        assert(in_order(x)) by {
            assert forall|m: int, n: int| 0 <= m < n < x.len() implies text_less(
                #[trigger] x[m],
                #[trigger] x[n],
            ) by {
                assert(x[m] == a[m] && x[n] == a[n]);
            }
        }
        assert(in_order(y)) by {
            assert forall|m: int, n: int| 0 <= m < n < y.len() implies text_less(
                #[trigger] y[m],
                #[trigger] y[n],
            ) by {
                assert(y[m] == b[m] && y[n] == b[n]);
            }
        }
        assert forall|t: Seq<char>| #[trigger] x.contains(t) == y.contains(t) by {
            lemma_drop_last_has(a, t);
            lemma_drop_last_has(b, t);
            assert(a.contains(t) == b.contains(t));
        }
        lemma_ordered_lists_agree(x, y);
        assert(a =~= x.push(a.last()));
        assert(b =~= y.push(b.last()));
    }
}

proof fn lemma_drop_last_has(a: Seq<Seq<char>>, t: Seq<char>)
    requires
        in_order(a),
        a.len() > 0,
    ensures
        a.drop_last().contains(t) == (a.contains(t) && t != a.last()),
{
    let x = a.drop_last();
    if x.contains(t) {
        let k = choose|k: int| 0 <= k < x.len() && x[k] == t;
        assert(a[k] == t);
        assert(text_less(a[k], a[a.len() - 1]));
        lemma_text_order_total(a[k], a.last());
    }
    if a.contains(t) && t != a.last() {
        let k = choose|k: int| 0 <= k < a.len() && a[k] == t;
        assert(x[k] == t);
    }
}

/// Trimming takes the white space off both ends and nothing else.
pub proof fn law_trimming_takes_white_space_off_the_ends(s: Seq<char>, a: int, b: int)
    requires
        0 <= a <= b <= s.len(),
        forall|i: int| 0 <= i < a ==> is_space_char(#[trigger] s[i]),
        forall|i: int| b <= i < s.len() ==> is_space_char(#[trigger] s[i]),
        a < b ==> !is_space_char(s[a]) && !is_space_char(s[b - 1]),
    ensures
        trim_text(s) == s.subrange(a, b),
{
    if a < b {
        lemma_trim_start(s, a);
        let t = s.skip(a);
        assert forall|i: int| b - a <= i < t.len() implies is_space_char(#[trigger] t[i]) by {
            assert(t[i] == s[a + i]);
        }
        lemma_trim_end(t, b - a);
        assert(t.take(b - a) =~= s.subrange(a, b));
    } else {
        assert forall|i: int| 0 <= i < s.len() implies is_space_char(#[trigger] s[i]) by {}
        lemma_trim_start(s, s.len() as int);
        assert(s.skip(s.len() as int) =~= Seq::<char>::empty());
        assert(s.subrange(a, b) =~= Seq::<char>::empty());
    }
}

proof fn lemma_trim_start(s: Seq<char>, a: int)
    requires
        0 <= a <= s.len(),
        forall|i: int| 0 <= i < a ==> is_space_char(#[trigger] s[i]),
        a < s.len() ==> !is_space_char(s[a]),
    ensures
        trim_start_text(s) == s.skip(a),
    decreases a,
{
    if a > 0 {
        let t = s.drop_first();
        assert forall|i: int| 0 <= i < a - 1 implies is_space_char(#[trigger] t[i]) by {
            assert(t[i] == s[i + 1]);
        }
        lemma_trim_start(t, a - 1);
        assert(t.skip(a - 1) =~= s.skip(a));
    } else {
        assert(s.skip(0) =~= s);
    }
}

proof fn lemma_trim_end(s: Seq<char>, b: int)
    requires
        0 <= b <= s.len(),
        forall|i: int| b <= i < s.len() ==> is_space_char(#[trigger] s[i]),
        b > 0 ==> !is_space_char(s[b - 1]),
    ensures
        trim_end_text(s) == s.take(b),
    decreases s.len(),
{
    if b < s.len() {
        let t = s.drop_last();
        assert forall|i: int| b <= i < t.len() implies is_space_char(#[trigger] t[i]) by {
            assert(t[i] == s[i]);
        }
        lemma_trim_end(t, b);
        assert(t.take(b) =~= s.take(b));
    } else {
        assert(s.take(b) =~= s);
    }
}

/// The white space at the end of a text is taken off, and nothing else.
pub proof fn law_trailing_white_space_is_taken_off(s: Seq<char>, b: int)
    requires
        0 <= b <= s.len(),
        forall|i: int| b <= i < s.len() ==> is_space_char(#[trigger] s[i]),
        b > 0 ==> !is_space_char(s[b - 1]),
    ensures
        trim_end_text(s) == s.take(b),
{
    lemma_trim_end(s, b);
}

/// The number that digits write down, the most significant first.
pub open spec fn written_number(s: Seq<char>) -> int
    decreases s.len(),
{
    if s.len() == 0 {
        0
    } else {
        10 * written_number(s.drop_last()) + (s.last() as int - '0' as int)
    }
}

/// A number in decimal is made of digits, starts with zero only where it is zero, and
/// reads back as the number.
pub proof fn law_decimals_read_back(n: nat)
    ensures
        written_number(decimal_text(n)) == n,
        decimal_text(n).len() > 0,
        forall|i: int|
            0 <= i < decimal_text(n).len() ==> '0' <= #[trigger] decimal_text(n)[i] <= '9',
        n > 0 ==> decimal_text(n)[0] != '0',
    decreases n,
{
    let t = decimal_text(n);
    if n < 10 {
        assert(t.drop_last() =~= Seq::<char>::empty());
        assert(written_number(t.drop_last()) == 0);
    } else {
        law_decimals_read_back(n / 10);
        let rest = decimal_text(n / 10);
        assert(t.drop_last() =~= rest);
        assert forall|i: int| 0 <= i < t.len() implies '0' <= #[trigger] t[i] <= '9' by {
            if i < rest.len() {
                assert(t[i] == rest[i]);
            }
        }
        assert(t[0] == rest[0]);
    }
}

/// A list without a text holds every other text of the list, and not that one.
pub proof fn law_a_dropped_text_is_gone(list: Seq<Seq<char>>, t: Seq<char>, x: Seq<char>)
    ensures
        without_text(list, t).contains(x) <==> list.contains(x) && x != t,
    decreases list.len(),
{
    if list.len() > 0 {
        let rest = list.drop_last();
        law_a_dropped_text_is_gone(rest, t, x);
        let kept = without_text(rest, t);
        let all = without_text(list, t);
        assert(list[list.len() - 1] == list.last());
        if rest.contains(x) {
            let i = choose|i: int| 0 <= i < rest.len() && rest[i] == x;
            assert(list[i] == x);
        }
        if list.contains(x) && x != list.last() {
            let i = choose|i: int| 0 <= i < list.len() && list[i] == x;
            assert(rest[i] == x);
        }
        if list.last() != t {
            assert(all[kept.len() as int] == list.last());
            if kept.contains(x) {
                let i = choose|i: int| 0 <= i < kept.len() && kept[i] == x;
                assert(all[i] == x);
            }
            if all.contains(x) && x != list.last() {
                let i = choose|i: int| 0 <= i < all.len() && all[i] == x;
                assert(kept[i] == x);
            }
        }
    }
}

} // verus!
