//! Text building blocks: decimal numerals, padding, trimming and number parsing.

use vstd::prelude::*;
use vstd::string::StrSliceExecFns;
use vstd::string::StringExecFns;

verus! {

/// `String::push` appends the character to the end of the string.
pub assume_specification[ String::push ](s: &mut String, c: char)
    ensures
        final(s)@ == old(s)@.push(c),
;

/// `String::pop` removes the last character and returns it; an empty string
/// stays as it is and yields `None`.
pub assume_specification[ String::pop ](s: &mut String) -> (r: Option<char>)
    ensures
        old(s)@.len() > 0 ==> r == Some(old(s)@.last()) && final(s)@ == old(s)@.drop_last(),
        old(s)@.len() == 0 ==> r is None && final(s)@ == old(s)@,
;

/// A character with the Unicode property `White_Space`.
pub open spec fn is_white_space(c: char) -> bool {
    let n = c as int;
    ||| 0x9 <= n <= 0xd
    ||| n == 0x20
    ||| n == 0x85
    ||| n == 0xa0
    ||| n == 0x1680
    ||| 0x2000 <= n <= 0x200a
    ||| n == 0x2028
    ||| n == 0x2029
    ||| n == 0x202f
    ||| n == 0x205f
    ||| n == 0x3000
}

/// `s` without leading white space.
pub open spec fn trimmed_start(s: Seq<char>) -> Seq<char>
    decreases s.len(),
{
    if s.len() > 0 && is_white_space(s[0]) {
        trimmed_start(s.drop_first())
    } else {
        s
    }
}

/// `s` without trailing white space.
pub open spec fn trimmed_end(s: Seq<char>) -> Seq<char>
    decreases s.len(),
{
    if s.len() > 0 && is_white_space(s.last()) {
        trimmed_end(s.drop_last())
    } else {
        s
    }
}

/// `s` without leading and trailing white space.
pub open spec fn trimmed(s: Seq<char>) -> Seq<char> {
    trimmed_end(trimmed_start(s))
}

/// `str::trim` removes leading and trailing white space, as the Unicode property
/// `White_Space` defines it.
pub assume_specification[ str::trim ](s: &str) -> (r: &str)
    ensures
        r@ == trimmed(s@),
;

/// The decimal digit `d`, for `d < 10`.
pub open spec fn digit_char(d: nat) -> char {
    (48 + d) as char
}

/// The decimal numeral of `n`, without leading zeros.
pub open spec fn decimal(n: nat) -> Seq<char>
    decreases n,
{
    if n < 10 {
        seq![digit_char(n)]
    } else {
        decimal(n / 10).push(digit_char(n % 10))
    }
}

/// The decimal numeral of a signed number.
pub open spec fn signed_decimal(n: int) -> Seq<char> {
    if n < 0 {
        seq!['-'] + decimal((-n) as nat)
    } else {
        decimal(n as nat)
    }
}

/// Appends the decimal numeral of `n` to `out`.
pub fn push_decimal(out: &mut String, n: u128)
    ensures
        final(out)@ == old(out)@ + decimal(n as nat),
    decreases n,
{
    if n >= 10 {
        push_decimal(out, n / 10);
    }
    let digit: u8 = 48 + (n % 10) as u8;
    out.push(digit as char);
    assert(out@ =~= old(out)@ + decimal(n as nat));
}

/// The decimal numeral of `n`.
pub fn decimal_text(n: u128) -> (r: String)
    ensures
        r@ == decimal(n as nat),
{
    let mut out = String::new();
    push_decimal(&mut out, n);
    assert(out@ =~= decimal(n as nat));
    out
}

/// The decimal numeral of a signed number.
pub fn signed_decimal_text(n: i64) -> (r: String)
    ensures
        r@ == signed_decimal(n as int),
{
    let mut out = String::new();
    if n < 0 {
        out.push('-');
        push_decimal(&mut out, (-(n as i128)) as u128);
    } else {
        push_decimal(&mut out, n as u128);
    }
    assert(out@ =~= signed_decimal(n as int));
    out
}

/// The text of an optional string.
pub open spec fn opt_view(s: Option<String>) -> Option<Seq<char>> {
    match s {
        Some(t) => Some(t@),
        None => None,
    }
}

/// The texts of a list of strings.
pub open spec fn strings(s: Seq<String>) -> Seq<Seq<char>> {
    s.map_values(|t: String| t@)
}

/// `c` is an ASCII decimal digit.
pub open spec fn is_digit(c: char) -> bool {
    '0' <= c && c <= '9'
}

/// Every character of `s` is a decimal digit, and there is one.
pub open spec fn all_digits(s: Seq<char>) -> bool {
    s.len() > 0 && forall|i: int| 0 <= i < s.len() ==> is_digit(#[trigger] s[i])
}

/// The number that a sequence of decimal digits stands for.
pub open spec fn digits_value(s: Seq<char>) -> nat
    decreases s.len(),
{
    if s.len() == 0 {
        0
    } else {
        digits_value(s.drop_last()) * 10 + (s.last() as nat - 48) as nat
    }
}

/// The whole number that `s` spells: an optional sign, then digits.
pub open spec fn integer(s: Seq<char>) -> Option<int> {
    if all_digits(s) {
        Some(digits_value(s) as int)
    } else if s.len() > 0 && s[0] == '-' && all_digits(s.skip(1)) {
        Some(-digits_value(s.skip(1)))
    } else if s.len() > 0 && s[0] == '+' && all_digits(s.skip(1)) {
        Some(digits_value(s.skip(1)) as int)
    } else {
        None
    }
}

/// `a` comes before `b` in the order of their code points, a proper prefix first.
pub open spec fn precedes(a: Seq<char>, b: Seq<char>) -> bool
    decreases a.len(),
{
    if b.len() == 0 {
        false
    } else if a.len() == 0 {
        true
    } else if a[0] != b[0] {
        (a[0] as int) < (b[0] as int)
    } else {
        precedes(a.drop_first(), b.drop_first())
    }
}

pub proof fn lemma_precedes_irreflexive(a: Seq<char>)
    ensures
        !precedes(a, a),
    decreases a.len(),
{
    if a.len() > 0 {
        lemma_precedes_irreflexive(a.drop_first());
    }
}

pub proof fn lemma_precedes_transitive(a: Seq<char>, b: Seq<char>, c: Seq<char>)
    requires
        precedes(a, b),
        precedes(b, c),
    ensures
        precedes(a, c),
    decreases a.len(),
{
    if a.len() > 0 && a[0] == b[0] && b[0] == c[0] {
        lemma_precedes_transitive(a.drop_first(), b.drop_first(), c.drop_first());
    }
}

pub proof fn lemma_precedes_total(a: Seq<char>, b: Seq<char>)
    requires
        a != b,
    ensures
        precedes(a, b) || precedes(b, a),
    decreases a.len(),
{
    if a.len() > 0 && b.len() > 0 && a[0] == b[0] {
        if a.drop_first() == b.drop_first() {
            assert(a =~= seq![a[0]] + a.drop_first());
            assert(b =~= seq![b[0]] + b.drop_first());
        }
        lemma_precedes_total(a.drop_first(), b.drop_first());
    } else {
        assert(a.len() == 0 && b.len() == 0 ==> a =~= b);
    }
}

/// `str`'s `==` holds exactly for texts with the same characters.
pub assume_specification[ <str as PartialEq>::eq ](a: &str, b: &str) -> (r: bool)
    ensures
        r == (a@ == b@),
;

/// The characters of `s`, in order.
pub fn chars_of(s: &str) -> (r: Vec<char>)
    ensures
        r@ == s@,
{
    let mut r: Vec<char> = Vec::new();
    for c in it: s.chars()
        invariant
            r@ == it.seq().take(it.index()),
            it.seq() == s@,
    {
        r.push(c);
    }
    assert(r@ =~= s@);
    r
}

/// `n`, but at most `u128::MAX`.
pub open spec fn capped(n: nat) -> u128 {
    if n <= u128::MAX {
        n as u128
    } else {
        u128::MAX
    }
}

/// The number that the characters from `from` on spell in decimal digits, at most
/// `u128::MAX`; `None` if they are no digits.
fn digits_capped(chars: &Vec<char>, from: usize) -> (r: Option<u128>)
    requires
        from <= chars@.len(),
    ensures
        match r {
            Some(v) => all_digits(chars@.skip(from as int)) && v == capped(
                digits_value(chars@.skip(from as int)),
            ),
            None => !all_digits(chars@.skip(from as int)),
        },
{
    let ghost digits = chars@.skip(from as int);
    if from == chars.len() {
        return None;
    }
    let mut value: u128 = 0;
    let mut i: usize = from;
    while i < chars.len()
        invariant
            from <= i <= chars@.len(),
            digits == chars@.skip(from as int),
            forall|k: int| 0 <= k < i - from ==> is_digit(#[trigger] digits[k]),
            value == capped(digits_value(digits.take(i - from))),
        decreases chars@.len() - i,
    {
        let c = chars[i];
        assert(c == digits[i - from]);
        if c < '0' || c > '9' {
            return None;
        }
        let d: u128 = (c as u32 - 48) as u128;
        proof {
            let before = digits.take(i - from);
            let after = digits.take(i - from + 1);
            assert(after.drop_last() =~= before);
            assert(after.last() == c);
        }
        if value > (u128::MAX - d) / 10 {
            value = u128::MAX;
        } else {
            value = value * 10 + d;
        }
        i += 1;
    }
    assert(digits.take(i - from) =~= digits);
    Some(value)
}

/// A whole number, by its sign and its magnitude up to `u128::MAX`.
pub struct IntegerText {
    pub negative: bool,
    pub magnitude: u128,
}

/// The whole number that `s` spells.
pub fn parse_integer(s: &str) -> (r: Option<IntegerText>)
    ensures
        match r {
            Some(x) => {
                &&& integer(s@) matches Some(n)
                &&& n < 0 ==> x.negative && x.magnitude == capped((-n) as nat)
                &&& n > 0 ==> !x.negative && x.magnitude == capped(n as nat)
                &&& n == 0 ==> x.magnitude == 0
            },
            None => integer(s@) is None,
        },
{
    let chars = chars_of(s);
    if chars.len() > 0 && (chars[0] == '-' || chars[0] == '+') {
        assert(!is_digit(s@[0]));
        match digits_capped(&chars, 1) {
            Some(magnitude) => Some(IntegerText { negative: chars[0] == '-', magnitude }),
            None => None,
        }
    } else {
        assert(chars@.skip(0) =~= s@);
        match digits_capped(&chars, 0) {
            Some(magnitude) => Some(IntegerText { negative: false, magnitude }),
            None => None,
        }
    }
}

/// The number that `s` spells as an unsigned number: an optional `+`, then digits.
pub open spec fn unsigned(s: Seq<char>) -> Option<nat> {
    if all_digits(s) {
        Some(digits_value(s))
    } else if s.len() > 0 && s[0] == '+' && all_digits(s.skip(1)) {
        Some(digits_value(s.skip(1)))
    } else {
        None
    }
}

/// The number up to `max` that `s` spells as an unsigned number.
pub fn parse_unsigned(s: &str, max: u64) -> (r: Option<u64>)
    ensures
        match r {
            Some(v) => unsigned(s@) == Some(v as nat) && v <= max,
            None => !(unsigned(s@) matches Some(v) && v <= max),
        },
{
    let chars = chars_of(s);
    let parsed = if chars.len() > 0 && chars[0] == '+' {
        assert(!is_digit(s@[0]));
        digits_capped(&chars, 1)
    } else {
        assert(chars@.skip(0) =~= s@);
        digits_capped(&chars, 0)
    };
    match parsed {
        Some(v) => if v <= max as u128 {
            Some(v as u64)
        } else {
            None
        },
        None => None,
    }
}

/// Whether `a` comes before `b` in the order of their code points.
pub fn text_precedes(a: &str, b: &str) -> (r: bool)
    ensures
        r == precedes(a@, b@),
{
    let x = chars_of(a);
    let y = chars_of(b);
    let mut i: usize = 0;
    assert(x@.skip(0) =~= a@ && y@.skip(0) =~= b@);
    while i < x.len() && i < y.len() && x[i] == y[i]
        invariant
            i <= x@.len(),
            i <= y@.len(),
            x@ == a@,
            y@ == b@,
            precedes(a@, b@) == precedes(x@.skip(i as int), y@.skip(i as int)),
        decreases x@.len() - i,
    {
        assert(x@.skip(i as int).drop_first() =~= x@.skip(i + 1));
        assert(y@.skip(i as int).drop_first() =~= y@.skip(i + 1));
        i += 1;
    }
    if i == y.len() {
        false
    } else if i == x.len() {
        true
    } else {
        x[i] < y[i]
    }
}

/// A flattened sequence holds exactly what its parts hold.
pub proof fn lemma_flat_map_contains<A, B>(s: Seq<A>, f: spec_fn(A) -> Seq<B>, b: B)
    ensures
        s.flat_map(f).contains(b) <==> exists|i: int|
            0 <= i < s.len() && f(#[trigger] s[i]).contains(b),
    decreases s.len(),
{
    if s.len() == 0 {
        assert(s.flat_map(f) =~= Seq::<B>::empty());
    } else {
        let rest = s.drop_last();
        lemma_flat_map_contains(rest, f, b);
        rest.lemma_flat_map_push(f, s.last());
        assert(rest.push(s.last()) =~= s);
        let whole = rest.flat_map(f) + f(s.last());
        assert(s.flat_map(f) == whole);
        if whole.contains(b) {
            let k = choose|k: int| 0 <= k < whole.len() && whole[k] == b;
            if k < rest.flat_map(f).len() {
                assert(rest.flat_map(f)[k] == b);
                let i = choose|i: int| 0 <= i < rest.len() && f(#[trigger] rest[i]).contains(b);
                assert(f(s[i]).contains(b));
            } else {
                assert(f(s.last())[k - rest.flat_map(f).len()] == b);
                assert(f(s[s.len() - 1]).contains(b));
            }
        }
        if exists|i: int| 0 <= i < s.len() && f(#[trigger] s[i]).contains(b) {
            let i = choose|i: int| 0 <= i < s.len() && f(#[trigger] s[i]).contains(b);
            if i < rest.len() {
                assert(f(rest[i]).contains(b));
                let before = rest.flat_map(f);
                let k = choose|k: int| 0 <= k < before.len() && before[k] == b;
                assert(whole[k] == b);
            } else {
                let last = f(s.last());
                let k = choose|k: int| 0 <= k < last.len() && last[k] == b;
                assert(whole[rest.flat_map(f).len() + k] == b);
            }
        }
    }
}

/// `n` times the character `c`.
pub open spec fn repeated(c: char, n: nat) -> Seq<char> {
    Seq::new(n, |i: int| c)
}

/// `s`, filled up with blanks on the right to `width` characters.
pub open spec fn padded(s: Seq<char>, width: nat) -> Seq<char> {
    s + repeated(
        ' ',
        if s.len() < width {
            (width - s.len()) as nat
        } else {
            0
        },
    )
}

/// The numeral of `n`, of at least two digits.
pub open spec fn two_digits(n: nat) -> Seq<char> {
    if n < 10 {
        seq!['0'] + decimal(n)
    } else {
        decimal(n)
    }
}

/// Appends `n` times the character `c` to `out`.
pub fn push_repeated(out: &mut String, c: char, n: usize)
    ensures
        final(out)@ == old(out)@ + repeated(c, n as nat),
{
    let ghost before = out@;
    let mut i: usize = 0;
    while i < n
        invariant
            i <= n,
            out@ =~= before + repeated(c, i as nat),
        decreases n - i,
    {
        out.push(c);
        i += 1;
    }
}

/// Appends `s` to `out`, filled up with blanks to `width` characters.
pub fn push_padded(out: &mut String, s: &str, width: usize)
    ensures
        final(out)@ == old(out)@ + padded(s@, width as nat),
{
    let ghost before = out@;
    out.append(s);
    let len: usize = s.unicode_len();
    if len < width {
        push_repeated(out, ' ', width - len);
    }
    assert(out@ =~= before + padded(s@, width as nat));
}

/// Appends the numeral of `n` to `out`, of at least two digits.
pub fn push_two_digits(out: &mut String, n: u64)
    ensures
        final(out)@ == old(out)@ + two_digits(n as nat),
{
    let ghost before = out@;
    if n < 10 {
        out.push('0');
    }
    push_decimal(out, n as u128);
    assert(out@ =~= before + two_digits(n as nat));
}

proof fn lemma_trimmed_start(s: Seq<char>)
    ensures
        trimmed_start(s).len() > 0 ==> !is_white_space(trimmed_start(s)[0]),
        trimmed_start(s).len() <= s.len(),
    decreases s.len(),
{
    if s.len() > 0 && is_white_space(s[0]) {
        lemma_trimmed_start(s.drop_first());
    }
}

proof fn lemma_trimmed_end(s: Seq<char>)
    ensures
        trimmed_end(s).len() > 0 ==> !is_white_space(trimmed_end(s).last()),
        trimmed_end(s).is_prefix_of(s),
    decreases s.len(),
{
    if s.len() > 0 && is_white_space(s.last()) {
        lemma_trimmed_end(s.drop_last());
    }
}

/// Trimming what was trimmed changes nothing.
pub proof fn law_trimming_is_idempotent(s: Seq<char>)
    ensures
        trimmed(trimmed(s)) == trimmed(s),
{
    let t = trimmed(s);
    lemma_trimmed_start(s);
    lemma_trimmed_end(trimmed_start(s));
    if t.len() > 0 {
        assert(t[0] == trimmed_start(s)[0]);
    }
}

proof fn lemma_decimal_digits(n: nat)
    ensures
        all_digits(decimal(n)),
        digits_value(decimal(n)) == n,
    decreases n,
{
    if n < 10 {
        assert(decimal(n).drop_last() =~= Seq::empty());
        assert(digits_value(decimal(n).drop_last()) == 0);
    } else {
        lemma_decimal_digits(n / 10);
        let s = decimal(n);
        assert(s.drop_last() =~= decimal(n / 10));
        assert forall|i: int| 0 <= i < s.len() implies is_digit(#[trigger] s[i]) by {
            if i < s.len() - 1 {
                assert(s[i] == decimal(n / 10)[i]);
            }
        }
    }
}

/// A numeral reads back as the number it was written for, and trimming leaves it as
/// it is.
pub proof fn law_numerals_read_back(n: nat)
    ensures
        unsigned(decimal(n)) == Some(n),
        trimmed(decimal(n)) == decimal(n),
{
    lemma_decimal_digits(n);
    let s = decimal(n);
    assert(is_digit(s[0]));
    assert(is_digit(s[s.len() - 1]));
}

/// A numeral has no leading zero, and a further digit stands at its end.
pub proof fn law_numerals_are_positional(n: nat, d: nat)
    requires
        d < 10,
        n > 0,
    ensures
        decimal(d) == seq![(48 + d) as char],
        decimal(10 * n + d) == decimal(n).push((48 + d) as char),
        decimal(n)[0] != '0',
    decreases n,
{
    assert((10 * n + d) / 10 == n && (10 * n + d) % 10 == d);
    if n >= 10 {
        law_numerals_are_positional(n / 10, n % 10);
        lemma_decimal_digits(n / 10);
    }
}

/// What spells a whole number: one digit or more, after a sign or none.
pub proof fn law_whole_numbers_are_digits_after_a_sign(s: Seq<char>)
    ensures
        s.len() > 0 && (s[0] == '-' || s[0] == '+') ==> (integer(s) is Some <==> s.len() > 1
            && forall|i: int| 1 <= i < s.len() ==> '0' <= #[trigger] s[i] && s[i] <= '9'),
        s.len() > 0 && s[0] == '+' ==> (unsigned(s) is Some <==> integer(s) is Some),
        s.len() > 0 && s[0] == '-' ==> unsigned(s) is None,
        s.len() == 0 || (s[0] != '-' && s[0] != '+') ==> {
            &&& integer(s) is Some <==> s.len() > 0 && forall|i: int|
                0 <= i < s.len() ==> '0' <= #[trigger] s[i] && s[i] <= '9'
            &&& unsigned(s) is Some <==> integer(s) is Some
        },
{
    let rest = s.skip(1);
    if s.len() > 0 && (s[0] == '-' || s[0] == '+') {
        assert(!is_digit(s[0]));
        assert(!all_digits(s));
        if s.len() > 1 && forall|i: int|
            1 <= i < s.len() ==> '0' <= #[trigger] s[i] && s[i] <= '9' {
            assert forall|k: int| 0 <= k < rest.len() implies is_digit(#[trigger] rest[k]) by {
                assert(rest[k] == s[k + 1]);
            }
            assert(all_digits(rest));
        } else if all_digits(rest) {
            assert forall|i: int| 1 <= i < s.len() implies '0' <= #[trigger] s[i] && s[i] <= '9' by {
                assert(is_digit(rest[i - 1]));
            }
        }
    } else if all_digits(s) {
        assert forall|i: int| 0 <= i < s.len() implies '0' <= #[trigger] s[i] && s[i] <= '9' by {
            assert(is_digit(s[i]));
        }
    } else if s.len() > 0 && forall|i: int|
        0 <= i < s.len() ==> '0' <= #[trigger] s[i] && s[i] <= '9' {
        assert forall|i: int| 0 <= i < s.len() implies is_digit(#[trigger] s[i]) by {}
        assert(all_digits(s));
    }
}

/// Which number it is: a further digit makes it ten times as large and adds the digit,
/// away from zero; a sign in front turns it round or changes nothing.
pub proof fn law_whole_numbers_are_positional(s: Seq<char>, d: nat)
    requires
        d < 10,
        s.len() > 0,
        forall|i: int|
            0 <= i < s.len() ==> '0' <= #[trigger] s[i] && s[i] <= '9',
    ensures
        integer(seq![(48 + d) as char]) == Some(d as int),
        integer(s) is Some,
        integer(s.push((48 + d) as char)) == Some(10 * integer(s)->0 + d),
        integer(seq!['-'] + s) == Some(-(integer(s)->0)),
        integer(seq!['+'] + s) == integer(s),
        unsigned(s) is Some,
        unsigned(s)->0 == integer(s)->0,
        unsigned(seq!['+'] + s) == unsigned(s),
{
    let c = (48 + d) as char;
    assert(forall|i: int| 0 <= i < s.len() ==> is_digit(#[trigger] s[i]));
    assert(is_digit(c));
    assert(s.push(c).drop_last() =~= s);
    assert(seq![c].drop_last() =~= Seq::empty());
    assert(digits_value(seq![c].drop_last()) == 0);
    assert forall|i: int| 0 <= i < s.push(c).len() implies is_digit(#[trigger] s.push(c)[i]) by {
        if i < s.len() {
            assert(s.push(c)[i] == s[i]);
        }
    }
    assert(is_digit(s[0]));
    assert((seq!['-'] + s).skip(1) =~= s);
    assert((seq!['+'] + s).skip(1) =~= s);
    assert(!is_digit((seq!['-'] + s)[0]));
    assert(!is_digit((seq!['+'] + s)[0]));
}

/// Text fills its column: it stands at the left, blanks follow up to the width, and
/// text that is wider is not cut.
pub proof fn law_padding_keeps_the_text(s: Seq<char>, width: nat)
    ensures
        s.is_prefix_of(padded(s, width)),
        padded(s, width).len() == if s.len() < width {
            width
        } else {
            s.len()
        },
        forall|i: int| s.len() <= i < padded(s, width).len() ==> #[trigger] padded(s, width)[i] == ' ',
{
}

/// A number below a hundred takes two digits, and reads back as itself.
pub proof fn law_two_digits_read_back(n: nat)
    ensures
        unsigned(two_digits(n)) == Some(n),
        n < 100 ==> two_digits(n).len() == 2,
{
    lemma_decimal_digits(n);
    if n < 10 {
        let s = two_digits(n);
        assert(s =~= seq!['0', digit_char(n)]);
        assert(s.drop_last() =~= seq!['0']);
        assert(s.drop_last().drop_last() =~= Seq::empty());
        assert(digits_value(s.drop_last().drop_last()) == 0);
        assert(digits_value(s.drop_last()) == 0);
        assert forall|i: int| 0 <= i < s.len() implies is_digit(#[trigger] s[i]) by {}
        assert(all_digits(s));
    } else if n < 100 {
        assert(decimal(n / 10).len() == 1);
    }
}

/// A signed number reads back as itself.
pub proof fn law_signed_numerals_read_back(n: int)
    ensures
        integer(signed_decimal(n)) == Some(n),
{
    if n < 0 {
        lemma_decimal_digits((-n) as nat);
        let s = decimal((-n) as nat);
        assert((seq!['-'] + s).skip(1) =~= s);
        assert(!is_digit((seq!['-'] + s)[0]));
    } else {
        lemma_decimal_digits(n as nat);
    }
}

/// What trimming leaves is the text without outer white space: nothing inside it is
/// touched, what goes is white space, and neither end of what stays is.
pub proof fn law_trimming_takes_outer_white_space(s: Seq<char>)
    ensures
        exists|i: int, j: int|
            {
                &&& 0 <= i <= j <= s.len()
                &&& trimmed(s) == #[trigger] s.subrange(i, j)
                &&& forall|k: int| 0 <= k < i || j <= k < s.len() ==> is_white_space(#[trigger] s[k])
                &&& i < j ==> !is_white_space(s[i]) && !is_white_space(s[j - 1])
            },
{
    let i = lemma_trimmed_start_at(s);
    let rest = s.skip(i);
    let n = lemma_trimmed_end_at(rest);
    assert(trimmed(s) =~= s.subrange(i, i + n));
    assert forall|k: int| 0 <= k < i || i + n <= k < s.len() implies is_white_space(
        #[trigger] s[k],
    ) by {
        if k >= i {
            assert(rest[k - i] == s[k]);
        }
    }
    if n > 0 {
        assert(rest[0] == s[i]);
        assert(rest[n - 1] == s[i + n - 1]);
    }
}

proof fn lemma_trimmed_start_at(s: Seq<char>) -> (i: int)
    ensures
        0 <= i <= s.len(),
        trimmed_start(s) == s.skip(i),
        forall|k: int| 0 <= k < i ==> is_white_space(#[trigger] s[k]),
        i < s.len() ==> !is_white_space(s[i]),
    decreases s.len(),
{
    if s.len() > 0 && is_white_space(s[0]) {
        let rest = s.drop_first();
        let i = lemma_trimmed_start_at(rest);
        assert(rest.skip(i) =~= s.skip(i + 1));
        assert forall|k: int| 0 <= k < i + 1 implies is_white_space(#[trigger] s[k]) by {
            if k > 0 {
                assert(rest[k - 1] == s[k]);
            }
        }
        if i + 1 < s.len() {
            assert(rest[i] == s[i + 1]);
        }
        i + 1
    } else {
        assert(s.skip(0) =~= s);
        0
    }
}

proof fn lemma_trimmed_end_at(s: Seq<char>) -> (n: int)
    ensures
        0 <= n <= s.len(),
        trimmed_end(s) == s.take(n),
        forall|k: int| n <= k < s.len() ==> is_white_space(#[trigger] s[k]),
        n > 0 ==> !is_white_space(s[n - 1]),
    decreases s.len(),
{
    if s.len() > 0 && is_white_space(s.last()) {
        let rest = s.drop_last();
        let n = lemma_trimmed_end_at(rest);
        assert(rest.take(n) =~= s.take(n));
        assert forall|k: int| n <= k < s.len() implies is_white_space(#[trigger] s[k]) by {
            if k < s.len() - 1 {
                assert(rest[k] == s[k]);
            }
        }
        n
    } else {
        assert(s.take(s.len() as int) =~= s);
        s.len() as int
    }
}

/// `part` stands somewhere in `whole`.
#[verifier::opaque]
pub open spec fn holds(whole: Seq<char>, part: Seq<char>) -> bool {
    exists|i: int, j: int| 0 <= i <= j <= whole.len() && #[trigger] whole.subrange(i, j) == part
}

/// What stands between two texts stands in the whole.
pub proof fn lemma_holds(before: Seq<char>, part: Seq<char>, after: Seq<char>)
    ensures
        holds(before + part + after, part),
{
    reveal(holds);
    let whole = before + part + after;
    assert(whole.subrange(before.len() as int, (before.len() + part.len()) as int) =~= part);
}

/// The order is that of a dictionary: at the first place where two texts differ the
/// lower code point comes first, and a text comes before those that it begins.
pub proof fn law_order_is_that_of_a_dictionary(a: Seq<char>, b: Seq<char>, k: int)
    requires
        0 <= k <= a.len(),
        k < b.len(),
        a.take(k) == b.take(k),
        k < a.len() ==> a[k] != b[k],
    ensures
        precedes(a, b) <==> k == a.len() || (a[k] as int) < (b[k] as int),
    decreases k,
{
    if k > 0 {
        assert(a[0] == a.take(k)[0] && b[0] == b.take(k)[0]);
        assert(a.drop_first().take(k - 1) =~= a.take(k).drop_first());
        assert(b.drop_first().take(k - 1) =~= b.take(k).drop_first());
        law_order_is_that_of_a_dictionary(a.drop_first(), b.drop_first(), k - 1);
    }
}

/// Joining texts is associative.
pub proof fn lemma_joined(a: Seq<char>, b: Seq<char>, c: Seq<char>)
    ensures
        a + b + c == a + (b + c),
{
    assert(a + b + c =~= a + (b + c));
}

} // verus!
