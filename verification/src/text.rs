//! Character-level text: trimming, splitting, case folding, decimal numbers.
use vstd::prelude::*;
use vstd::slice::slice_subrange;
use vstd::string::StringExecFns;
use vstd::utf8::encode_utf8;

verus! {

/// The characters with the Unicode `White_Space` property.
pub open spec fn is_space(c: char) -> bool {
    let u = c as u32;
    ||| 0x9 <= u <= 0xd
    ||| u == 0x20
    ||| u == 0x85
    ||| u == 0xa0
    ||| u == 0x1680
    ||| 0x2000 <= u <= 0x200a
    ||| u == 0x2028
    ||| u == 0x2029
    ||| u == 0x202f
    ||| u == 0x205f
    ||| u == 0x3000
}

/// Whether `c` is white space.
pub fn char_is_space(c: char) -> (r: bool)
    ensures
        r == is_space(c),
{
    let u: u32 = c as u32;
    (0x9 <= u && u <= 0xd) || u == 0x20 || u == 0x85 || u == 0xa0 || u == 0x1680 || (0x2000 <= u
        && u <= 0x200a) || u == 0x2028 || u == 0x2029 || u == 0x202f || u == 0x205f || u == 0x3000
}

/// `s` without its leading white space.
pub open spec fn trim_start_spec(s: Seq<char>) -> Seq<char>
    decreases s.len(),
{
    if s.len() > 0 && is_space(s[0]) {
        trim_start_spec(s.subrange(1, s.len() as int))
    } else {
        s
    }
}

/// `s` without its trailing white space.
pub open spec fn trim_end_spec(s: Seq<char>) -> Seq<char>
    decreases s.len(),
{
    if s.len() > 0 && is_space(s.last()) {
        trim_end_spec(s.drop_last())
    } else {
        s
    }
}

/// `s` without the white space around it.
pub open spec fn trim_spec(s: Seq<char>) -> Seq<char> {
    trim_end_spec(trim_start_spec(s))
}

/// The characters of `s` without the white space around them.
pub fn trim(s: &[char]) -> (r: &[char])
    ensures
        r@ == trim_spec(s@),
{
    let mut i: usize = 0;
    assert(s@.subrange(0, s@.len() as int) =~= s@);
    while i < s.len() && char_is_space(s[i])
        invariant
            i <= s.len(),
            trim_start_spec(s@) == trim_start_spec(s@.subrange(i as int, s@.len() as int)),
        decreases s.len() - i,
    {
        proof {
            let t = s@.subrange(i as int, s@.len() as int);
            assert(t.subrange(1, t.len() as int) =~= s@.subrange(i + 1, s@.len() as int));
        }
        i = i + 1;
    }
    let ghost head = s@.subrange(i as int, s@.len() as int);
    let mut j: usize = s.len();
    while j > i && char_is_space(s[j - 1])
        invariant
            i <= j <= s.len(),
            head == s@.subrange(i as int, s@.len() as int),
            trim_end_spec(head) == trim_end_spec(s@.subrange(i as int, j as int)),
        decreases j,
    {
        proof {
            let t = s@.subrange(i as int, j as int);
            assert(t.drop_last() =~= s@.subrange(i as int, j - 1));
        }
        j = j - 1;
    }
    slice_subrange(s, i, j)
}

/// The lower-case form of an ASCII letter; every other character unchanged.
pub open spec fn lower(c: char) -> char {
    if 'A' <= c <= 'Z' {
        (c as u8 + 32) as char
    } else {
        c
    }
}

/// `lower` on one character.
pub fn char_lower(c: char) -> (r: char)
    ensures
        r == lower(c),
{
    if 'A' <= c && c <= 'Z' {
        (c as u8 + 32) as char
    } else {
        c
    }
}

/// `lower` on each character.
pub open spec fn lower_all(s: Seq<char>) -> Seq<char> {
    s.map_values(|c: char| lower(c))
}

/// The characters of `s`, ASCII letters in lower case.
pub fn to_lower(s: &[char]) -> (r: Vec<char>)
    ensures
        r@ == lower_all(s@),
{
    let mut r: Vec<char> = Vec::new();
    let mut i: usize = 0;
    while i < s.len()
        invariant
            i <= s.len(),
            r@ =~= lower_all(s@.subrange(0, i as int)),
        decreases s.len() - i,
    {
        r.push(char_lower(s[i]));
        i = i + 1;
    }
    assert(s@.subrange(0, s@.len() as int) =~= s@);
    r
}

/// The characters of `s`.
pub fn chars(s: &str) -> (r: Vec<char>)
    ensures
        r@ == s@,
{
    let mut r: Vec<char> = Vec::new();
    for c in it: s.chars()
        invariant
            r@ =~= it.seq().subrange(0, it.index() as int),
            it.seq() == s@,
    {
        r.push(c);
    }
    r
}

/// Whether two runs of characters are the same.
pub fn same_chars(a: &[char], b: &[char]) -> (r: bool)
    ensures
        r == (a@ == b@),
{
    if a.len() != b.len() {
        return false;
    }
    let mut i: usize = 0;
    while i < a.len()
        invariant
            a.len() == b.len(),
            i <= a.len(),
            forall|k: int| 0 <= k < i ==> a@[k] == b@[k],
        decreases a.len() - i,
    {
        if a[i] != b[i] {
            return false;
        }
        i = i + 1;
    }
    assert(a@ =~= b@);
    true
}

/// Whether two strings hold the same text.
pub fn same(a: &str, b: &str) -> (r: bool)
    ensures
        r == (a@ == b@),
{
    let x: &[u8] = a.as_bytes();
    let y: &[u8] = b.as_bytes();
    proof {
        vstd::utf8::encode_utf8_decode_utf8(a@);
        vstd::utf8::encode_utf8_decode_utf8(b@);
    }
    if x.len() != y.len() {
        return false;
    }
    let mut i: usize = 0;
    while i < x.len()
        invariant
            x.len() == y.len(),
            x@ == encode_utf8(a@),
            y@ == encode_utf8(b@),
            i <= x.len(),
            forall|k: int| 0 <= k < i ==> x@[k] == y@[k],
        decreases x.len() - i,
    {
        if x[i] != y[i] {
            return false;
        }
        i = i + 1;
    }
    assert(x@ =~= y@);
    true
}

/// Whether the characters `s` are the text `t`.
pub fn is_text(s: &[char], t: &str) -> (r: bool)
    ensures
        r == (s@ == t@),
{
    let u: Vec<char> = chars(t);
    same_chars(s, u.as_slice())
}

/// Whether `s` and `t` are the same text but for the case of ASCII letters.
pub fn is_text_any_case(s: &[char], t: &str) -> (r: bool)
    ensures
        r == (lower_all(s@) == lower_all(t@)),
{
    let a: Vec<char> = to_lower(s);
    let c: Vec<char> = chars(t);
    let b: Vec<char> = to_lower(c.as_slice());
    same_chars(a.as_slice(), b.as_slice())
}

/// Whether `c` is one of the ten decimal digits.
pub open spec fn is_digit(c: char) -> bool {
    '0' <= c <= '9'
}

/// The number that a run of decimal digits writes, most significant first.
pub open spec fn decimal_value(s: Seq<char>) -> nat
    decreases s.len(),
{
    if s.len() == 0 {
        0
    } else {
        10 * decimal_value(s.drop_last()) + (s.last() as u32 - '0' as u32) as nat
    }
}

/// The digits of an unsigned number in text: all of it, or what follows one `+`.
pub open spec fn unsigned_digits(s: Seq<char>) -> Seq<char> {
    if s.len() > 0 && s[0] == '+' {
        s.subrange(1, s.len() as int)
    } else {
        s
    }
}

/// The number that `s` writes: at least one digit, nothing but digits after an
/// optional `+`, and not above `usize::MAX`.
pub open spec fn parse_usize_spec(s: Seq<char>) -> Option<usize> {
    let d = unsigned_digits(s);
    if d.len() > 0 && (forall|i: int| 0 <= i < d.len() ==> is_digit(#[trigger] d[i]))
        && decimal_value(d) <= usize::MAX {
        Some(decimal_value(d) as usize)
    } else {
        None
    }
}

/// A longer run of digits never writes a smaller number.
pub proof fn lemma_decimal_value_monotonic(s: Seq<char>, i: int)
    requires
        0 <= i <= s.len(),
        forall|k: int| 0 <= k < s.len() ==> is_digit(#[trigger] s[k]),
    ensures
        decimal_value(s.subrange(0, i)) <= decimal_value(s),
    decreases s.len() - i,
{
    if i == s.len() {
        assert(s.subrange(0, i) =~= s);
    } else {
        lemma_decimal_value_monotonic(s, i + 1);
        let t = s.subrange(0, i + 1);
        assert(t.drop_last() =~= s.subrange(0, i));
        assert(is_digit(s[i]));
    }
}

/// Reads an unsigned decimal number; `None` where the text is not one, or is one
/// too large for `usize`.
pub fn parse_usize(s: &[char]) -> (r: Option<usize>)
    ensures
        r == parse_usize_spec(s@),
{
    let mut start: usize = 0;
    if s.len() > 0 && s[0] == '+' {
        start = 1;
    }
    let ghost d = unsigned_digits(s@);
    assert(d =~= s@.subrange(start as int, s@.len() as int));
    if start >= s.len() {
        return None;
    }
    let mut bad: usize = start;
    while bad < s.len()
        invariant
            start <= bad <= s.len(),
            d == unsigned_digits(s@),
            d == s@.subrange(start as int, s@.len() as int),
            forall|k: int| 0 <= k < bad - start ==> is_digit(#[trigger] d[k]),
        decreases s.len() - bad,
    {
        if s[bad] < '0' || s[bad] > '9' {
            assert(!is_digit(d[bad - start]));
            return None;
        }
        bad = bad + 1;
    }
    let mut value: usize = 0;
    let mut i: usize = start;
    assert(d.subrange(0, 0) =~= Seq::<char>::empty());
    while i < s.len()
        invariant
            start <= i <= s.len(),
            d == s@.subrange(start as int, s@.len() as int),
            d.len() > 0,
            d == unsigned_digits(s@),
            forall|k: int| 0 <= k < d.len() ==> is_digit(#[trigger] d[k]),
            value == decimal_value(d.subrange(0, i - start)),
        decreases s.len() - i,
    {
        assert(is_digit(d[i - start]) && d[i - start] == s@[i as int]);
        let digit: usize = (s[i] as u32 - '0' as u32) as usize;
        proof {
            let t = d.subrange(0, i - start + 1);
            assert(t.drop_last() =~= d.subrange(0, i - start));
            assert(t.last() == s@[i as int]);
            lemma_decimal_value_monotonic(d, i - start + 1);
        }
        if value > usize::MAX / 10 || value * 10 > usize::MAX - digit {
            return None;
        }
        value = value * 10 + digit;
        i = i + 1;
    }
    assert(d.subrange(0, d.len() as int) =~= d);
    Some(value)
}

/// The digit character of `n % 10`.
pub open spec fn digit_char(n: nat) -> char {
    (('0' as u32) + n % 10) as char
}

/// The decimal text of `n`, without leading zeros.
pub open spec fn decimal_text(n: nat) -> Seq<char>
    decreases n,
{
    if n < 10 {
        seq![digit_char(n)]
    } else {
        decimal_text(n / 10).push(digit_char(n))
    }
}

/// The decimal text of a number writes that number, in digits only.
pub proof fn lemma_decimal_text_value(n: nat)
    ensures
        decimal_text(n).len() > 0,
        forall|i: int| 0 <= i < decimal_text(n).len() ==> is_digit(#[trigger] decimal_text(n)[i]),
        decimal_value(decimal_text(n)) == n,
    decreases n,
{
    let t = decimal_text(n);
    if n < 10 {
        assert(t.drop_last() =~= Seq::<char>::empty());
        assert(decimal_value(t.drop_last()) == 0);
        assert(t.last() == digit_char(n));
    } else {
        lemma_decimal_text_value(n / 10);
        assert(t.drop_last() =~= decimal_text(n / 10));
        assert(t.last() == digit_char(n));
        assert forall|i: int| 0 <= i < t.len() implies is_digit(#[trigger] t[i]) by {
            if i < t.len() - 1 {
                assert(t[i] == decimal_text(n / 10)[i]);
            }
        }
    }
}

/// Reading back a rendered number gives the number.
pub proof fn law_decimal_round_trip(n: usize)
    ensures
        parse_usize_spec(decimal_text(n as nat)) == Some(n),
{
    lemma_decimal_text_value(n as nat);
    assert(is_digit(decimal_text(n as nat)[0]));
    assert(unsigned_digits(decimal_text(n as nat)) == decimal_text(n as nat));
}

/// `String::push` appends one character.
pub assume_specification[ std::string::String::push ](s: &mut std::string::String, c: char)
    ensures
        final(s)@ == old(s)@.push(c),
;

/// Appends the decimal text of `n` to `out`.
pub fn push_decimal(out: &mut String, n: usize)
    ensures
        final(out)@ == old(out)@ + decimal_text(n as nat),
    decreases n,
{
    if n >= 10 {
        push_decimal(out, n / 10);
    }
    let d: u8 = (n % 10) as u8;
    let c: char = (48 + d) as char;
    out.push(c);
    assert(c == digit_char(n as nat));
    assert(out@ =~= old(out)@ + decimal_text(n as nat));
}

/// The string that holds the characters `s`.
pub fn from_chars(s: &[char]) -> (r: String)
    ensures
        r@ == s@,
{
    let mut r: String = String::new();
    let mut i: usize = 0;
    while i < s.len()
        invariant
            i <= s.len(),
            r@ =~= s@.subrange(0, i as int),
        decreases s.len() - i,
    {
        r.push(s[i]);
        i = i + 1;
    }
    assert(s@.subrange(0, s@.len() as int) =~= s@);
    r
}

/// The pieces of `s` between the characters of `seps`: one more piece than there
/// are separators, empty pieces kept.
pub open spec fn split_spec(s: Seq<char>, seps: Seq<char>) -> Seq<Seq<char>>
    decreases s.len(),
{
    if s.len() == 0 {
        seq![Seq::<char>::empty()]
    } else {
        let head = split_spec(s.drop_last(), seps);
        if seps.contains(s.last()) {
            head.push(Seq::empty())
        } else {
            head.update(head.len() - 1, head.last().push(s.last()))
        }
    }
}

/// Whether `c` is one of `seps`.
fn is_one_of(c: char, seps: &[char]) -> (r: bool)
    ensures
        r == seps@.contains(c),
{
    let mut i: usize = 0;
    while i < seps.len()
        invariant
            i <= seps.len(),
            forall|k: int| 0 <= k < i ==> seps@[k] != c,
        decreases seps.len() - i,
    {
        if seps[i] == c {
            return true;
        }
        i = i + 1;
    }
    false
}

/// The views of the pieces that a split gave.
pub open spec fn piece_views(v: Seq<Vec<char>>) -> Seq<Seq<char>> {
    v.map_values(|p: Vec<char>| p@)
}

/// Splits `s` at every character of `seps`.
pub fn split(s: &[char], seps: &[char]) -> (r: Vec<Vec<char>>)
    ensures
        piece_views(r@) == split_spec(s@, seps@),
        r@.len() > 0,
{
    let mut done: Vec<Vec<char>> = Vec::new();
    let mut cur: Vec<char> = Vec::new();
    let mut i: usize = 0;
    assert(piece_views(done@).push(cur@) =~= seq![Seq::<char>::empty()]);
    assert(s@.subrange(0, 0) =~= Seq::<char>::empty());
    while i < s.len()
        invariant
            i <= s.len(),
            piece_views(done@).push(cur@) == split_spec(s@.subrange(0, i as int), seps@),
        decreases s.len() - i,
    {
        let c: char = s[i];
        let ghost t = s@.subrange(0, i + 1);
        let ghost before = piece_views(done@).push(cur@);
        assert(t.drop_last() =~= s@.subrange(0, i as int));
        assert(t.last() == c);
        if is_one_of(c, seps) {
            done.push(cur);
            cur = Vec::new();
            assert(piece_views(done@).push(cur@) =~= before.push(Seq::empty()));
        } else {
            let ghost was = cur@;
            cur.push(c);
            assert(before.last() == was);
            assert(piece_views(done@).push(cur@) =~= before.update(
                before.len() - 1,
                before.last().push(c),
            ));
        }
        i = i + 1;
    }
    assert(s@.subrange(0, s@.len() as int) =~= s@);
    let ghost before = piece_views(done@).push(cur@);
    done.push(cur);
    assert(piece_views(done@) =~= before);
    done
}

/// Where the first dot of `s` at or after `from` stands, or `s.len()`.
pub open spec fn next_dot(s: Seq<char>, from: int) -> int
    decreases s.len() - from,
{
    if from >= s.len() {
        s.len() as int
    } else if s[from] == '.' {
        from
    } else {
        next_dot(s, from + 1)
    }
}

/// Finds the next dot.
pub fn find_dot(s: &[char], from: usize) -> (r: usize)
    requires
        from <= s@.len(),
    ensures
        r == next_dot(s@, from as int),
        from <= r <= s@.len(),
{
    let mut i: usize = from;
    while i < s.len() && s[i] != '.'
        invariant
            from <= i <= s.len(),
            next_dot(s@, from as int) == next_dot(s@, i as int),
        decreases s.len() - i,
    {
        i = i + 1;
    }
    i
}

/// Whether the characters `s` begin with the text `prefix`.
pub open spec fn has_prefix(s: Seq<char>, prefix: Seq<char>) -> bool {
    s.len() >= prefix.len() && s.subrange(0, prefix.len() as int) == prefix
}

/// What follows the text `prefix` at the start of `s`.
pub fn strip_prefix<'a>(s: &'a [char], prefix: &str) -> (r: Option<&'a [char]>)
    ensures
        match r {
            Some(rest) => has_prefix(s@, prefix@) && rest@ == s@.subrange(
                prefix@.len() as int,
                s@.len() as int,
            ),
            None => !has_prefix(s@, prefix@),
        },
{
    let p: Vec<char> = chars(prefix);
    if s.len() < p.len() {
        return None;
    }
    if same_chars(slice_subrange(s, 0, p.len()), p.as_slice()) {
        Some(slice_subrange(s, p.len(), s.len()))
    } else {
        None
    }
}

/// All of these are white space.
pub open spec fn all_space(s: Seq<char>) -> bool {
    forall|i: int| 0 <= i < s.len() ==> is_space(#[trigger] s[i])
}

/// White space around a text does not count, and white space within it does: what is left
/// begins and ends as the text does.
pub proof fn law_trim(a: Seq<char>, t: Seq<char>, b: Seq<char>)
    requires
        all_space(a),
        all_space(b),
        t.len() > 0 ==> !is_space(t[0]) && !is_space(t.last()),
    ensures
        trim_spec(a + t + b) == t,
        trim_spec(t) == t,
{
    lemma_trim_start(a, t + b);
    assert(a + t + b =~= a + (t + b));
    if t.len() > 0 {
        assert((t + b)[0] == t[0]);
        lemma_trim_end(t, b);
    } else {
        assert(t + b =~= b);
        assert(b + t =~= b);
        lemma_trim_start(b, t);
        assert(t =~= Seq::<char>::empty());
    }
}

proof fn lemma_trim_start(a: Seq<char>, s: Seq<char>)
    requires
        all_space(a),
    ensures
        trim_start_spec(a + s) == trim_start_spec(s),
    decreases a.len(),
{
    if a.len() > 0 {
        let rest = a.subrange(1, a.len() as int);
        assert((a + s)[0] == a[0]);
        assert forall|i: int| 0 <= i < rest.len() implies is_space(#[trigger] rest[i]) by {
            assert(rest[i] == a[i + 1]);
        }
        assert((a + s).subrange(1, (a + s).len() as int) =~= rest + s);
        lemma_trim_start(rest, s);
    } else {
        assert(a + s =~= s);
    }
}

proof fn lemma_trim_end(s: Seq<char>, b: Seq<char>)
    requires
        all_space(b),
    ensures
        trim_end_spec(s + b) == trim_end_spec(s),
    decreases b.len(),
{
    if b.len() > 0 {
        assert((s + b).last() == b[b.len() - 1]);
        assert((s + b).drop_last() =~= s + b.drop_last());
        lemma_trim_end(s, b.drop_last());
    } else {
        assert(s + b =~= s);
    }
}

/// Space, tab, line feed and carriage return are white space; letters and digits are not.
pub proof fn law_white_space(c: char)
    ensures
        is_space(' '),
        is_space('\t'),
        is_space('\n'),
        is_space('\r'),
        'a' <= c <= 'z' || 'A' <= c <= 'Z' || '0' <= c <= '9' || c == '_' || c == '.' || c == '-'
            ==> !is_space(c),
{
}

/// Letters of both cases have the same lower-case form, which is one of the lower case; nothing
/// else changes.
pub proof fn law_lower_case(i: int, c: char)
    requires
        0 <= i < 26,
    ensures
        lower(('A' as u32 + i) as char) == ('a' as u32 + i) as char,
        lower(('a' as u32 + i) as char) == ('a' as u32 + i) as char,
        !('A' <= c <= 'Z') ==> lower(c) == c,
        lower(lower(c)) == lower(c),
{
}

/// A number may have one `+` before it and zeros; what is no digit makes no number, nor does
/// nothing at all.
pub proof fn law_numbers_are_digits(n: usize, s: Seq<char>, i: int)
    requires
        0 <= i < s.len(),
    ensures
        parse_usize_spec(seq!['+'] + decimal_text(n as nat)) == Some(n),
        parse_usize_spec(seq!['0'] + decimal_text(n as nat)) == Some(n),
        parse_usize_spec(Seq::empty()) is None,
        parse_usize_spec(seq!['+']) is None,
        !is_digit(s[i]) && !(i == 0 && s[i] == '+') ==> parse_usize_spec(s) is None,
{
    let d = decimal_text(n as nat);
    lemma_decimal_text_value(n as nat);
    let plus = seq!['+'] + d;
    assert(plus.subrange(1, plus.len() as int) =~= d);
    let zero = seq!['0'] + d;
    assert(zero[0] == '0');
    assert forall|k: int| 0 <= k < zero.len() implies is_digit(#[trigger] zero[k]) by {
        if k > 0 {
            assert(zero[k] == d[k - 1]);
        }
    }
    lemma_leading_zero(d);
    assert(seq!['+'].subrange(1, 1) =~= Seq::<char>::empty());
    if !is_digit(s[i]) && !(i == 0 && s[i] == '+') {
        if s[0] == '+' {
            assert(unsigned_digits(s)[i - 1] == s[i]);
        } else {
            assert(unsigned_digits(s)[i] == s[i]);
        }
    }
}

proof fn lemma_leading_zero(d: Seq<char>)
    ensures
        decimal_value(seq!['0'] + d) == decimal_value(d),
    decreases d.len(),
{
    let z = seq!['0'] + d;
    if d.len() == 0 {
        assert(z.drop_last() =~= Seq::<char>::empty());
        assert(decimal_value(z.drop_last()) == 0);
        assert(z.last() == '0');
    } else {
        assert(z.drop_last() =~= seq!['0'] + d.drop_last());
        assert(z.last() == d.last());
        lemma_leading_zero(d.drop_last());
    }
}

/// The pieces with one separator after each but the last.
pub open spec fn joined_by(pieces: Seq<Seq<char>>, sep: char) -> Seq<char>
    decreases pieces.len(),
{
    if pieces.len() == 0 {
        Seq::empty()
    } else if pieces.len() == 1 {
        pieces[0]
    } else {
        joined_by(pieces.drop_last(), sep).push(sep) + pieces.last()
    }
}

/// Splitting a text loses nothing but the separators, and no piece holds one: with one
/// separator the pieces joined by it are the text.
pub proof fn law_split(s: Seq<char>, sep: char)
    ensures
        split_spec(s, seq![sep]).len() > 0,
        joined_by(split_spec(s, seq![sep]), sep) == s,
        forall|i: int, j: int|
            #![trigger split_spec(s, seq![sep])[i][j]]
            0 <= i < split_spec(s, seq![sep]).len() && 0 <= j < split_spec(s, seq![sep])[i].len()
                ==> split_spec(s, seq![sep])[i][j] != sep,
    decreases s.len(),
{
    let pieces = split_spec(s, seq![sep]);
    if s.len() == 0 {
        assert(pieces[0] =~= Seq::<char>::empty());
    } else {
        let rest = s.drop_last();
        let head = split_spec(rest, seq![sep]);
        law_split(rest, sep);
        assert(s =~= rest.push(s.last()));
        if s.last() == sep {
            assert(seq![sep][0] == s.last());
            assert(seq![sep].contains(s.last()));
            assert(pieces =~= head.push(Seq::empty()));
            assert(pieces.drop_last() =~= head);
            assert(joined_by(head, sep).push(sep) + Seq::<char>::empty() =~= s);
            assert forall|i: int, j: int|
                #![trigger pieces[i][j]]
                0 <= i < pieces.len() && 0 <= j < pieces[i].len() implies pieces[i][j] != sep by {
                if i < head.len() {
                    assert(pieces[i] == head[i]);
                    assert(head[i][j] != sep);
                }
            }
        } else {
            assert(!seq![sep].contains(s.last()));
            let more = head.last().push(s.last());
            assert(pieces =~= head.update(head.len() - 1, more));
            if head.len() > 1 {
                assert(pieces.drop_last() =~= head.drop_last());
                assert(joined_by(pieces, sep) =~= joined_by(head, sep).push(s.last()));
            } else {
                assert(joined_by(pieces, sep) =~= joined_by(head, sep).push(s.last()));
            }
            assert forall|i: int, j: int|
                #![trigger pieces[i][j]]
                0 <= i < pieces.len() && 0 <= j < pieces[i].len() implies pieces[i][j] != sep by {
                if i < head.len() - 1 {
                    assert(pieces[i] == head[i]);
                    assert(head[i][j] != sep);
                } else if j < head.last().len() {
                    assert(pieces[i] == more);
                    assert(head[head.len() - 1][j] != sep);
                }
            }
        }
    }
}

/// The next dot is a dot, and there is none before it.
pub proof fn law_next_dot(s: Seq<char>, from: int, i: int)
    requires
        0 <= from <= i < next_dot(s, from),
    ensures
        s[i] != '.',
        from <= next_dot(s, from) <= s.len(),
        next_dot(s, from) < s.len() ==> s[next_dot(s, from)] == '.',
    decreases s.len() - from,
{
    if from < s.len() && s[from] != '.' {
        lemma_next_dot_bounds(s, from + 1);
        if i > from {
            law_next_dot(s, from + 1, i);
        }
    }
}

proof fn lemma_next_dot_bounds(s: Seq<char>, from: int)
    requires
        0 <= from <= s.len(),
    ensures
        from <= next_dot(s, from) <= s.len(),
        next_dot(s, from) < s.len() ==> s[next_dot(s, from)] == '.',
    decreases s.len() - from,
{
    if from < s.len() && s[from] != '.' {
        lemma_next_dot_bounds(s, from + 1);
    }
}

} // verus!
