//! Text: decimal and hexadecimal numbers, splitting, joining, trimming.
use vstd::arithmetic::{div_mod, power};
use vstd::prelude::*;

verus! {

broadcast use vstd::seq_lib::group_seq_properties;

/// `String::push` appends one character.
pub assume_specification[ String::push ](s: &mut String, c: char)
    ensures
        final(s)@ == old(s)@.push(c),
;

/// The texts of a list of strings.
pub open spec fn texts(v: Seq<String>) -> Seq<Seq<char>> {
    v.map_values(|s: String| s@)
}

/// The texts of a list are those of its strings, one for one.
pub proof fn texts_one_by_one(v: Seq<String>, i: int)
    requires
        0 <= i < v.len(),
    ensures
        texts(v).len() == v.len(),
        texts(v)[i] == v[i]@,
{
}

/// The digit character for `d`, in base 16 or less.
pub open spec fn digit_char(d: nat) -> char {
    if d < 10 {
        (48 + d) as char
    } else {
        (87 + d) as char
    }
}

/// `n` in base 10, without leading zeros.
pub open spec fn decimal(n: nat) -> Seq<char>
    decreases n,
{
    if n < 10 {
        seq![digit_char(n)]
    } else {
        decimal(n / 10).push(digit_char(n % 10))
    }
}

/// `n` in base 16 with lower-case letters, without leading zeros.
pub open spec fn hexadecimal(n: nat) -> Seq<char>
    decreases n,
{
    if n < 16 {
        seq![digit_char(n)]
    } else {
        hexadecimal(n / 16).push(digit_char(n % 16))
    }
}

pub open spec fn is_digit(c: char) -> bool {
    '0' <= c <= '9'
}

pub open spec fn all_digits(s: Seq<char>) -> bool {
    forall|i: int| 0 <= i < s.len() ==> is_digit(#[trigger] s[i])
}

/// The number that a string of decimal digits denotes.
pub open spec fn decimal_value(s: Seq<char>) -> nat
    decreases s.len(),
{
    if s.len() == 0 {
        0
    } else {
        decimal_value(s.drop_last()) * 10 + (s.last() as nat - 48) as nat
    }
}

/// A decimal number is made of digits, has no leading zero unless it is zero itself, and denotes
/// what it was made from.
pub proof fn decimal_is_canonical(n: nat)
    ensures
        all_digits(decimal(n)),
        decimal(n).len() > 0,
        decimal(n).len() > 1 ==> decimal(n)[0] != '0',
        decimal_value(decimal(n)) == n,
    decreases n,
{
    reveal_with_fuel(decimal_value, 2);
    if n < 10 {
        assert(decimal(n) =~= seq![digit_char(n)]);
        assert(decimal(n).drop_last() =~= Seq::<char>::empty());
    } else {
        decimal_is_canonical(n / 10);
        let p = decimal(n / 10);
        assert(decimal(n) =~= p.push(digit_char(n % 10)));
        assert(decimal(n).drop_last() =~= p);
        assert(decimal(n)[0] == p[0]);
        if p.len() == 1 {
            assert(p =~= seq![p[0]]);
            assert(p.drop_last() =~= Seq::<char>::empty());
        }
    }
}

/// A canonical string of digits is the decimal form of the number that it denotes.
pub proof fn canonical_is_decimal(s: Seq<char>)
    requires
        all_digits(s),
        s.len() > 0,
        s.len() > 1 ==> s[0] != '0',
    ensures
        decimal(decimal_value(s)) == s,
        s.len() > 1 ==> decimal_value(s) >= 10,
        s[0] != '0' ==> decimal_value(s) > 0,
    decreases s.len(),
{
    reveal_with_fuel(decimal_value, 2);
    reveal_with_fuel(decimal, 2);
    let p = s.drop_last();
    assert(is_digit(s.last()));
    if s.len() == 1 {
        assert(p =~= Seq::<char>::empty());
        assert(decimal(decimal_value(s)) =~= s);
    } else {
        assert(p[0] == s[0]);
        assert forall|i: int| 0 <= i < p.len() implies is_digit(#[trigger] p[i]) by {
            assert(p[i] == s[i]);
        }
        canonical_is_decimal(p);
        let v = decimal_value(s);
        assert(v / 10 == decimal_value(p));
        assert(decimal(v) =~= s);
    }
}

/// Different numbers have different decimal forms.
pub proof fn decimal_injective(a: nat, b: nat)
    ensures
        decimal(a) == decimal(b) ==> a == b,
{
    decimal_is_canonical(a);
    decimal_is_canonical(b);
}

/// The character at each place of a number in base 10 is its digit there, and the first is not a
/// zero that could be left out.
pub proof fn decimal_digits(n: nat, i: int)
    requires
        0 <= i < decimal(n).len(),
    ensures
        decimal(n)[decimal(n).len() - 1 - i] as int == '0' as int + (n as int / power::pow(
            10,
            i as nat,
        )) % 10,
        n < power::pow(10, decimal(n).len()),
        decimal(n).len() > 1 ==> power::pow(10, (decimal(n).len() - 1) as nat) <= n,
    decreases n,
{
    power::lemma_pow0(10);
    power::lemma_pow1(10);
    assert(n as int / 1 == n);
    if n >= 10 {
        let p = decimal(n / 10);
        let k = p.len();
        decimal_is_canonical(n / 10);
        assert(power::pow(10, (k + 1) as nat) == 10 * power::pow(10, k)) by {
            reveal(power::pow);
        }
        decimal_digits(n / 10, if i > 0 { i - 1 } else { 0 });
        if i > 0 {
            let e = (i - 1) as nat;
            assert(decimal(n)[k - i] == p[k - 1 - e]);
            power::lemma_pow_positive(10, e);
            div_mod::lemma_div_denominator(n as int, 10, power::pow(10, e));
            assert(power::pow(10, (e + 1) as nat) == 10 * power::pow(10, e)) by {
                reveal(power::pow);
            }
        }
        if k > 1 {
            assert(power::pow(10, k) == 10 * power::pow(10, (k - 1) as nat)) by {
                reveal(power::pow);
            }
        }
    }
}

/// The character at each place of a number in base 16 is its digit there, a small letter from ten
/// on, and the first is not a zero that could be left out.
pub proof fn hexadecimal_digits(n: nat, i: int)
    requires
        0 <= i < hexadecimal(n).len(),
    ensures
        ({
            let digits = seq![
                '0', '1', '2', '3', '4', '5', '6', '7', '8', '9', 'a', 'b', 'c', 'd', 'e', 'f',
            ];
            hexadecimal(n)[hexadecimal(n).len() - 1 - i] == digits[(n as int / power::pow(
                16,
                i as nat,
            )) % 16]
        }),
        n < power::pow(16, hexadecimal(n).len()),
        hexadecimal(n).len() > 1 ==> power::pow(16, (hexadecimal(n).len() - 1) as nat) <= n,
    decreases n,
{
    power::lemma_pow0(16);
    power::lemma_pow1(16);
    assert(n as int / 1 == n);
    let digits = seq![
        '0', '1', '2', '3', '4', '5', '6', '7', '8', '9', 'a', 'b', 'c', 'd', 'e', 'f',
    ];
    assert(forall|d: nat| d < 16 ==> #[trigger] digit_char(d) == digits[d as int]);
    if n >= 16 {
        let p = hexadecimal(n / 16);
        let k = p.len();
        assert(k > 0);
        assert(power::pow(16, (k + 1) as nat) == 16 * power::pow(16, k)) by {
            reveal(power::pow);
        }
        hexadecimal_digits(n / 16, if i > 0 { i - 1 } else { 0 });
        if i > 0 {
            let e = (i - 1) as nat;
            assert(hexadecimal(n)[k - i] == p[k - 1 - e]);
            power::lemma_pow_positive(16, e);
            div_mod::lemma_div_denominator(n as int, 16, power::pow(16, e));
            assert(power::pow(16, (e + 1) as nat) == 16 * power::pow(16, e)) by {
                reveal(power::pow);
            }
        } else {
            assert(hexadecimal(n).last() == digit_char(n % 16));
        }
        if k > 1 {
            assert(power::pow(16, k) == 16 * power::pow(16, (k - 1) as nat)) by {
                reveal(power::pow);
            }
        }
    } else {
        assert(hexadecimal(n)[0] == digit_char(n));
    }
}

/// Appends `n` in base 10.
pub fn push_decimal(out: &mut String, n: u64)
    ensures
        final(out)@ == old(out)@ + decimal(n as nat),
    decreases n,
{
    let ghost before = out@;
    if n < 10 {
        out.push((48 + n as u8) as char);
        assert(out@ =~= before + decimal(n as nat));
    } else {
        push_decimal(out, n / 10);
        out.push((48 + (n % 10) as u8) as char);
        assert(out@ =~= before + decimal(n as nat));
    }
}

/// Appends `n` in base 16 with lower-case letters.
pub fn push_hexadecimal(out: &mut String, n: u64)
    ensures
        final(out)@ == old(out)@ + hexadecimal(n as nat),
    decreases n,
{
    let ghost before = out@;
    let d: u8 = (n % 16) as u8;
    let c: u8 = if d < 10 {
        48 + d
    } else {
        87 + d
    };
    if n >= 16 {
        push_hexadecimal(out, n / 16);
    }
    out.push(c as char);
    assert(out@ =~= before + hexadecimal(n as nat));
}

/// `n` in base 10.
pub fn decimal_text(n: u64) -> (r: String)
    ensures
        r@ == decimal(n as nat),
{
    let mut out = String::new();
    push_decimal(&mut out, n);
    assert(out@ =~= decimal(n as nat));
    out
}

/// What a text denotes as a 16-bit number: digits, after an optional plus sign.
pub open spec fn u16_of(s: Seq<char>) -> Option<u16> {
    match number_of(s, 0xffff) {
        Some(v) => Some(v as u16),
        None => None,
    }
}

/// The decimal form of a 16-bit number reads back as that number.
pub proof fn u16_round_trip(n: u16)
    ensures
        u16_of(decimal(n as nat)) == Some(n),
{
    decimal_is_canonical(n as nat);
    assert(is_digit(decimal(n as nat)[0]));
}

proof fn decimal_value_monotone(s: Seq<char>, i: int)
    requires
        0 <= i <= s.len(),
        all_digits(s),
    ensures
        decimal_value(s.take(i)) <= decimal_value(s),
    decreases s.len() - i,
{
    if i < s.len() {
        decimal_value_monotone(s, i + 1);
        assert(s.take(i + 1).drop_last() =~= s.take(i));
        assert(is_digit(s[i]));
    } else {
        assert(s.take(i) =~= s);
    }
}

/// The number that a string of digits denotes, if the string is all digits and the number is at
/// most `max`.
pub fn parse_digits(s: &str, max: u64) -> (r: Option<u64>)
    requires
        max <= 0xffff_ffff,
    ensures
        r == (if s@.len() > 0 && all_digits(s@) && decimal_value(s@) <= max {
            Some(decimal_value(s@) as u64)
        } else {
            None
        }),
{
    let mut v: u64 = 0;
    let mut ok = true;
    let mut some = false;
    assert(s@.take(0) =~= Seq::<char>::empty());
    for c in it: s.chars()
        invariant
            it.seq() == s@,
            max <= 0xffff_ffff,
            some == (it.index() > 0),
            ok ==> all_digits(s@.take(it.index() as int)) && v == decimal_value(
                s@.take(it.index() as int),
            ) && v <= max,
            !ok ==> !(all_digits(s@) && decimal_value(s@) <= max),
    {
        let ghost i = it.index() as int;
        some = true;
        assert(c == s@[i]);
        assert(s@.take(i + 1).drop_last() =~= s@.take(i));
        if ok {
            if '0' <= c && c <= '9' {
                let d: u64 = c as u64 - 48;
                let w: u64 = v * 10 + d;
                assert(w == decimal_value(s@.take(i + 1)));
                assert forall|j: int| 0 <= j < i + 1 implies is_digit(
                    #[trigger] s@.take(i + 1)[j],
                ) by {
                    if j < i {
                        assert(s@.take(i)[j] == s@.take(i + 1)[j]);
                    }
                }
                if w > max {
                    ok = false;
                    proof {
                        if all_digits(s@) {
                            decimal_value_monotone(s@, i + 1);
                        }
                    }
                } else {
                    v = w;
                }
            } else {
                ok = false;
                assert(!is_digit(s@[i]));
            }
        }
    }
    assert(s@.take(s@.len() as int) =~= s@);
    if ok && some {
        Some(v)
    } else {
        None
    }
}

/// The 16-bit number that a text denotes.
pub fn parse_u16(s: &str) -> (r: Option<u16>)
    ensures
        r == u16_of(s@),
{
    let n: usize = s.unicode_len();
    let digits: &str = if n > 0 && s.get_char(0) == '+' {
        s.substring_char(1, n)
    } else {
        s
    };
    assert(s@.len() > 0 ==> s@.subrange(1, s@.len() as int) =~= s@.skip(1));
    match parse_digits(digits, 0xffff) {
        Some(v) => Some(v as u16),
        None => None,
    }
}

/// The characters with Unicode's White_Space property.
pub open spec fn is_white_space(c: char) -> bool {
    let v = c as int;
    ||| 0x9 <= v <= 0xd
    ||| v == 0x20
    ||| v == 0x85
    ||| v == 0xa0
    ||| v == 0x1680
    ||| 0x2000 <= v <= 0x200a
    ||| v == 0x2028
    ||| v == 0x2029
    ||| v == 0x202f
    ||| v == 0x205f
    ||| v == 0x3000
}

/// `s` without leading white space.
pub open spec fn trim_start(s: Seq<char>) -> Seq<char>
    decreases s.len(),
{
    if s.len() > 0 && is_white_space(s[0]) {
        trim_start(s.skip(1))
    } else {
        s
    }
}

/// `s` without trailing white space.
pub open spec fn trim_end(s: Seq<char>) -> Seq<char>
    decreases s.len(),
{
    if s.len() > 0 && is_white_space(s.last()) {
        trim_end(s.drop_last())
    } else {
        s
    }
}

/// `s` without leading and trailing white space.
pub open spec fn trimmed(s: Seq<char>) -> Seq<char> {
    trim_end(trim_start(s))
}

/// A text that begins and ends with something other than white space stays as it is.
pub proof fn trimmed_is_identity(s: Seq<char>)
    requires
        s.len() > 0 ==> !is_white_space(s[0]) && !is_white_space(s.last()),
    ensures
        trimmed(s) == s,
{
}

/// Among the characters of ASCII, white space is the space and what lies from the tab to the
/// carriage return.
pub proof fn ascii_white_space(c: char)
    requires
        c as int <= 0x7f,
    ensures
        is_white_space(c) <==> c == ' ' || '\t' <= c <= '\r',
{
}

/// Trimming takes the white space off both ends and leaves what is between.
pub proof fn trimming_takes_the_ends(front: Seq<char>, core: Seq<char>, back: Seq<char>)
    requires
        forall|i: int| 0 <= i < front.len() ==> is_white_space(#[trigger] front[i]),
        forall|i: int| 0 <= i < back.len() ==> is_white_space(#[trigger] back[i]),
        core.len() > 0 ==> !is_white_space(core[0]) && !is_white_space(core.last()),
    ensures
        trimmed(front + core + back) == core,
{
    if core.len() > 0 {
        assert((core + back)[0] == core[0]);
        trim_start_of(front, core + back);
        assert(front + core + back =~= front + (core + back));
        trim_end_of(core, back);
    } else {
        let all = front + core + back;
        assert forall|i: int| 0 <= i < all.len() implies is_white_space(#[trigger] all[i]) by {
            if i < front.len() {
                assert(all[i] == front[i]);
            } else {
                assert(all[i] == back[i - front.len()]);
            }
        }
        trim_start_of(all, Seq::empty());
        assert(all + Seq::<char>::empty() =~= all);
        assert(trim_end(Seq::<char>::empty()) =~= core);
    }
}

/// What trimming leaves of a text is the text but for white space at both ends.
pub proof fn what_trimming_leaves(s: Seq<char>) -> (ends: (Seq<char>, Seq<char>))
    ensures
        s == ends.0 + trimmed(s) + ends.1,
        forall|i: int| 0 <= i < ends.0.len() ==> is_white_space(#[trigger] ends.0[i]),
        forall|i: int| 0 <= i < ends.1.len() ==> is_white_space(#[trigger] ends.1[i]),
        trimmed(s).len() > 0 ==> !is_white_space(trimmed(s)[0]) && !is_white_space(
            trimmed(s).last(),
        ),
{
    let front = trimmed_front(s);
    let t = trim_start(s);
    let back = trimmed_back(t);
    assert(s =~= front + trimmed(s) + back);
    assert(trimmed(s).len() > 0 ==> trimmed(s)[0] == t[0]);
    (front, back)
}

proof fn trimmed_front(s: Seq<char>) -> (front: Seq<char>)
    ensures
        s == front + trim_start(s),
        forall|i: int| 0 <= i < front.len() ==> is_white_space(#[trigger] front[i]),
        trim_start(s).len() > 0 ==> !is_white_space(trim_start(s)[0]),
    decreases s.len(),
{
    if s.len() > 0 && is_white_space(s[0]) {
        let rest = trimmed_front(s.skip(1));
        let front = seq![s[0]] + rest;
        assert(s =~= front + trim_start(s));
        front
    } else {
        assert(s =~= Seq::<char>::empty() + trim_start(s));
        Seq::empty()
    }
}

proof fn trimmed_back(s: Seq<char>) -> (back: Seq<char>)
    ensures
        s == trim_end(s) + back,
        forall|i: int| 0 <= i < back.len() ==> is_white_space(#[trigger] back[i]),
        trim_end(s).len() > 0 ==> !is_white_space(trim_end(s).last()),
    decreases s.len(),
{
    if s.len() > 0 && is_white_space(s.last()) {
        let rest = trimmed_back(s.drop_last());
        let back = rest + seq![s.last()];
        assert(s =~= s.drop_last() + seq![s.last()]);
        assert(trim_end(s) == trim_end(s.drop_last()));
        assert(trim_end(s) + rest + seq![s.last()] =~= trim_end(s) + back);
        back
    } else {
        assert(s =~= trim_end(s) + Seq::<char>::empty());
        Seq::empty()
    }
}

proof fn trim_start_of(front: Seq<char>, rest: Seq<char>)
    requires
        forall|i: int| 0 <= i < front.len() ==> is_white_space(#[trigger] front[i]),
        rest.len() > 0 ==> !is_white_space(rest[0]),
    ensures
        trim_start(front + rest) == rest,
    decreases front.len(),
{
    if front.len() == 0 {
        assert(front + rest =~= rest);
    } else {
        assert(is_white_space(front[0]));
        assert((front + rest).skip(1) =~= front.skip(1) + rest);
        trim_start_of(front.skip(1), rest);
    }
}

proof fn trim_end_of(rest: Seq<char>, back: Seq<char>)
    requires
        forall|i: int| 0 <= i < back.len() ==> is_white_space(#[trigger] back[i]),
        rest.len() > 0 ==> !is_white_space(rest.last()),
    ensures
        trim_end(rest + back) == rest,
    decreases back.len(),
{
    if back.len() == 0 {
        assert(rest + back =~= rest);
    } else {
        assert(is_white_space(back[back.len() - 1]));
        assert((rest + back).drop_last() =~= rest + back.drop_last());
        trim_end_of(rest, back.drop_last());
    }
}

fn white_space(c: char) -> (r: bool)
    ensures
        r == is_white_space(c),
{
    let v: u32 = c as u32;
    (0x9 <= v && v <= 0xd) || v == 0x20 || v == 0x85 || v == 0xa0 || v == 0x1680 || (0x2000 <= v
        && v <= 0x200a) || v == 0x2028 || v == 0x2029 || v == 0x202f || v == 0x205f || v == 0x3000
}

/// `s` without leading and trailing white space.
pub fn trim(s: &str) -> (r: &str)
    ensures
        r@ == trimmed(s@),
{
    let n: usize = s.unicode_len();
    let mut i: usize = 0;
    assert(s@.skip(0) =~= s@);
    while i < n && white_space(s.get_char(i))
        invariant
            n == s@.len(),
            i <= n,
            trim_start(s@) == trim_start(s@.skip(i as int)),
        decreases n - i,
    {
        assert(s@.skip(i as int)[0] == s@[i as int]);
        assert(s@.skip(i as int).skip(1) =~= s@.skip(i + 1));
        i = i + 1;
    }
    let ghost t = s@.skip(i as int);
    assert(t.len() > 0 ==> t[0] == s@[i as int]);
    let mut j: usize = n;
    assert(s@.subrange(i as int, n as int) =~= t);
    while i < j && white_space(s.get_char(j - 1))
        invariant
            n == s@.len(),
            i <= j <= n,
            trim_end(t) == trim_end(s@.subrange(i as int, j as int)),
        decreases j,
    {
        let ghost u = s@.subrange(i as int, j as int);
        assert(u.last() == s@[j - 1]);
        assert(u.drop_last() =~= s@.subrange(i as int, j - 1));
        j = j - 1;
    }
    let ghost u = s@.subrange(i as int, j as int);
    assert(u.len() > 0 ==> u.last() == s@[j - 1]);
    s.substring_char(i, j)
}

/// Whether two texts are the same.
pub fn same(a: &str, b: &str) -> (r: bool)
    ensures
        r == (a@ == b@),
{
    let x: String = a.to_owned();
    let y: String = b.to_owned();
    x == y
}

/// The pieces of `s` between the occurrences of `sep`.
pub open spec fn split_on(s: Seq<char>, sep: char) -> Seq<Seq<char>>
    decreases s.len(),
{
    if s.len() == 0 {
        seq![Seq::empty()]
    } else {
        let before = split_on(s.drop_last(), sep);
        if s.last() == sep {
            before.push(Seq::empty())
        } else {
            before.drop_last().push(before.last().push(s.last()))
        }
    }
}

/// The pieces in order, with `sep` between them.
pub open spec fn joined(parts: Seq<Seq<char>>, sep: Seq<char>) -> Seq<char>
    decreases parts.len(),
{
    if parts.len() == 0 {
        Seq::empty()
    } else if parts.len() == 1 {
        parts[0]
    } else {
        joined(parts.drop_last(), sep) + sep + parts.last()
    }
}

/// Joined pieces stand one after the other, with the separator between each two of them.
pub proof fn joining_adds_a_piece(parts: Seq<Seq<char>>, piece: Seq<char>, sep: Seq<char>)
    ensures
        joined(Seq::empty(), sep).len() == 0,
        joined(seq![piece], sep) == piece,
        parts.len() > 0 ==> joined(parts.push(piece), sep) == joined(parts, sep) + sep + piece,
{
    assert(parts.push(piece).drop_last() =~= parts);
}

/// There is always at least one piece, and no piece holds the separator.
pub proof fn split_pieces(s: Seq<char>, sep: char)
    ensures
        split_on(s, sep).len() > 0,
        forall|i: int| 0 <= i < split_on(s, sep).len() ==> !(#[trigger] split_on(s, sep)[i]).contains(
            sep,
        ),
    decreases s.len(),
{
    if s.len() > 0 {
        let b = split_on(s.drop_last(), sep);
        split_pieces(s.drop_last(), sep);
        let r = split_on(s, sep);
        assert forall|i: int| 0 <= i < r.len() implies !(#[trigger] r[i]).contains(sep) by {
            if s.last() == sep {
                if i < b.len() {
                    assert(r[i] == b[i]);
                }
            } else {
                if i < b.len() - 1 {
                    assert(r[i] == b[i]);
                } else {
                    assert(r[i] =~= b.last().push(s.last()));
                    assert(!b[b.len() - 1].contains(sep));
                }
            }
        }
    }
}

/// Joining the pieces of a text with the separator gives back the text.
pub proof fn join_of_split(s: Seq<char>, sep: char)
    ensures
        joined(split_on(s, sep), seq![sep]) == s,
    decreases s.len(),
{
    reveal_with_fuel(joined, 2);
    if s.len() > 0 {
        let b = split_on(s.drop_last(), sep);
        let r = split_on(s, sep);
        split_pieces(s.drop_last(), sep);
        join_of_split(s.drop_last(), sep);
        if s.last() == sep {
            assert(r.drop_last() =~= b);
            assert(joined(r, seq![sep]) =~= s);
        } else {
            assert(r.drop_last() =~= b.drop_last());
            assert(r.last() =~= b.last().push(s.last()));
            if b.len() == 1 {
                assert(joined(b, seq![sep]) == b[0]);
                assert(joined(r, seq![sep]) == r[0]);
            } else {
                assert(joined(r, seq![sep]) =~= joined(b, seq![sep]).push(s.last()));
            }
            assert(s.drop_last().push(s.last()) =~= s);
        }
    } else {
        assert(joined(split_on(s, sep), seq![sep]) =~= s);
    }
}

/// Splitting `a`, a separator and a piece without separators gives the pieces of `a` and that
/// piece.
proof fn split_append(a: Seq<char>, piece: Seq<char>, sep: char)
    requires
        !piece.contains(sep),
    ensures
        split_on(a + seq![sep] + piece, sep) == split_on(a, sep).push(piece),
    decreases piece.len(),
{
    let s = a + seq![sep] + piece;
    if piece.len() == 0 {
        assert(s.drop_last() =~= a);
        assert(piece =~= Seq::<char>::empty());
    } else {
        assert forall|c: char| piece.drop_last().contains(c) implies piece.contains(c) by {
            let i = choose|i: int| 0 <= i < piece.drop_last().len() && piece.drop_last()[i] == c;
            assert(piece[i] == c);
        }
        split_append(a, piece.drop_last(), sep);
        assert(s.drop_last() =~= a + seq![sep] + piece.drop_last());
        assert(piece.contains(piece.last()));
        assert(split_on(a, sep).push(piece.drop_last()).drop_last() =~= split_on(a, sep));
        assert(piece.drop_last().push(piece.last()) =~= piece);
    }
}

proof fn split_single(piece: Seq<char>, sep: char)
    requires
        !piece.contains(sep),
    ensures
        split_on(piece, sep) == seq![piece],
    decreases piece.len(),
{
    if piece.len() > 0 {
        assert forall|c: char| piece.drop_last().contains(c) implies piece.contains(c) by {
            let i = choose|i: int| 0 <= i < piece.drop_last().len() && piece.drop_last()[i] == c;
            assert(piece[i] == c);
        }
        split_single(piece.drop_last(), sep);
        assert(piece.contains(piece.last()));
        assert(seq![piece.drop_last()].drop_last() =~= Seq::<Seq<char>>::empty());
        assert(piece.drop_last().push(piece.last()) =~= piece);
        assert(split_on(piece, sep) =~= seq![piece]);
    } else {
        assert(piece =~= Seq::<char>::empty());
    }
}

/// The last piece of a text is what follows the last separator, or all of it where there is none.
pub proof fn split_at_the_last(front: Seq<char>, last: Seq<char>, sep: char)
    requires
        !last.contains(sep),
    ensures
        split_on(front + seq![sep] + last, sep).last() == last,
        split_on(last, sep).last() == last,
{
    split_append(front, last, sep);
    split_single(last, sep);
}

/// Splitting joined pieces gives back the pieces, if none of them holds the separator.
pub proof fn split_of_join(parts: Seq<Seq<char>>, sep: char)
    requires
        parts.len() > 0,
        forall|i: int| 0 <= i < parts.len() ==> !(#[trigger] parts[i]).contains(sep),
    ensures
        split_on(joined(parts, seq![sep]), sep) == parts,
    decreases parts.len(),
{
    if parts.len() == 1 {
        split_single(parts[0], sep);
        assert(parts =~= seq![parts[0]]);
    } else {
        split_of_join(parts.drop_last(), sep);
        split_append(joined(parts.drop_last(), seq![sep]), parts.last(), sep);
        assert(parts.drop_last().push(parts.last()) =~= parts);
    }
}

/// The pieces of `s` between the occurrences of `sep`.
pub fn split(s: &str, sep: char) -> (r: Vec<String>)
    ensures
        texts(r@) == split_on(s@, sep),
{
    let mut out: Vec<String> = Vec::new();
    let mut piece = String::new();
    assert(s@.take(0) =~= Seq::<char>::empty());
    assert(texts(out@).push(piece@) =~= split_on(s@.take(0), sep));
    for c in it: s.chars()
        invariant
            it.seq() == s@,
            texts(out@).push(piece@) == split_on(s@.take(it.index() as int), sep),
    {
        let ghost i = it.index() as int;
        let ghost before = texts(out@);
        let ghost p = piece@;
        assert(s@.take(i + 1).drop_last() =~= s@.take(i));
        assert(before.push(p).drop_last() =~= before);
        if c == sep {
            out.push(piece);
            piece = String::new();
            assert(texts(out@) =~= before.push(p));
        } else {
            piece.push(c);
        }
        assert(texts(out@).push(piece@) =~= split_on(s@.take(i + 1), sep));
    }
    assert(s@.take(s@.len() as int) =~= s@);
    let ghost before = texts(out@);
    let ghost p = piece@;
    out.push(piece);
    assert(texts(out@) =~= before.push(p));
    out
}

/// The characters of a text.
pub fn chars_of(s: &str) -> (r: Vec<char>)
    ensures
        r@ == s@,
{
    let mut out: Vec<char> = Vec::new();
    for c in it: s.chars()
        invariant
            it.seq() == s@,
            out@ == s@.take(it.index() as int),
    {
        let ghost i = it.index() as int;
        out.push(c);
        assert(out@ =~= s@.take(i + 1));
    }
    assert(s@.take(s@.len() as int) =~= s@);
    out
}

/// Whether `part` stands in `s` at `i`.
pub open spec fn stands_at(s: Seq<char>, part: Seq<char>, i: int) -> bool {
    0 <= i && i + part.len() <= s.len() && s.subrange(i, i + part.len()) == part
}

/// Whether `part` stands somewhere in `s`.
pub open spec fn contains_text(s: Seq<char>, part: Seq<char>) -> bool {
    exists|i: int| stands_at(s, part, i)
}

/// A text holds another one exactly where the other one stands between two parts of it.
pub proof fn held_between(s: Seq<char>, part: Seq<char>)
    ensures
        contains_text(s, part) <==> exists|a: Seq<char>, b: Seq<char>|
            s == #[trigger] (a + part + b),
{
    if contains_text(s, part) {
        let i = choose|i: int| stands_at(s, part, i);
        let a = s.take(i);
        let b = s.skip(i + part.len());
        assert(s =~= a + part + b);
    }
    if exists|a: Seq<char>, b: Seq<char>| s == #[trigger] (a + part + b) {
        let (a, b) = choose|a: Seq<char>, b: Seq<char>| s == #[trigger] (a + part + b);
        assert(s.subrange(a.len() as int, (a.len() + part.len()) as int) =~= part);
        assert(stands_at(s, part, a.len() as int));
    }
}

/// A text holds what it was put together from.
pub proof fn held_in_the_middle(a: Seq<char>, part: Seq<char>, b: Seq<char>)
    ensures
        contains_text(a + part + b, part),
{
    assert((a + part + b).subrange(a.len() as int, (a.len() + part.len()) as int) =~= part);
    assert(stands_at(a + part + b, part, a.len() as int));
}

/// A text holds what it ends with, and what it holds is held by what goes on from it.
pub proof fn held_as_it_goes_on(s: Seq<char>, part: Seq<char>, more: Seq<char>)
    ensures
        contains_text(s + part, part),
        contains_text(s, part) ==> contains_text(s + more, part),
{
    assert((s + part).subrange(s.len() as int, (s.len() + part.len()) as int) =~= part);
    assert(stands_at(s + part, part, s.len() as int));
    if contains_text(s, part) {
        let i = choose|i: int| stands_at(s, part, i);
        assert((s + more).subrange(i, i + part.len()) =~= s.subrange(i, i + part.len()));
        assert(stands_at(s + more, part, i));
    }
}

fn matches_at(s: &Vec<char>, part: &Vec<char>, i: usize) -> (r: bool)
    requires
        i <= s@.len(),
    ensures
        r == stands_at(s@, part@, i as int),
{
    let total: usize = s.len();
    if part.len() > total - i {
        return false;
    }
    let mut j: usize = 0;
    while j < part.len()
        invariant
            j <= part@.len(),
            total == s@.len(),
            i + part@.len() <= total,
            forall|k: int| 0 <= k < j ==> s@[i + k] == part@[k],
        decreases part@.len() - j,
    {
        if s[i + j] != part[j] {
            assert(s@.subrange(i as int, i + part@.len())[j as int] != part@[j as int]);
            return false;
        }
        j = j + 1;
    }
    assert(s@.subrange(i as int, i + part@.len()) =~= part@);
    true
}

/// Whether `part` stands somewhere in `s`.
pub fn contains(s: &str, part: &str) -> (r: bool)
    ensures
        r == contains_text(s@, part@),
{
    let a = chars_of(s);
    let b = chars_of(part);
    let mut i: usize = 0;
    while i <= a.len()
        invariant
            a@ == s@,
            b@ == part@,
            i <= a@.len() + 1,
            forall|k: int| 0 <= k < i ==> !stands_at(s@, part@, k),
        decreases a@.len() + 1 - i,
    {
        if matches_at(&a, &b, i) {
            return true;
        }
        if i == a.len() {
            assert forall|k: int| !stands_at(s@, part@, k) by {
                if k == i {
                }
            }
            return false;
        }
        i = i + 1;
    }
    false
}

/// Whether a text contains a character.
pub fn has_char(s: &str, c: char) -> (r: bool)
    ensures
        r == s@.contains(c),
{
    let a = chars_of(s);
    let mut i: usize = 0;
    while i < a.len()
        invariant
            a@ == s@,
            i <= a@.len(),
            forall|k: int| 0 <= k < i ==> s@[k] != c,
        decreases a@.len() - i,
    {
        if a[i] == c {
            assert(s@[i as int] == c);
            return true;
        }
        i = i + 1;
    }
    false
}

/// What follows `prefix` in `s`, if `s` starts with it.
pub open spec fn without_prefix(s: Seq<char>, prefix: Seq<char>) -> Option<Seq<char>> {
    if prefix.len() <= s.len() && s.take(prefix.len() as int) == prefix {
        Some(s.skip(prefix.len() as int))
    } else {
        None
    }
}

/// What follows a prefix is what gives the text when it is put behind the prefix.
pub proof fn prefix_and_rest(s: Seq<char>, prefix: Seq<char>, rest: Seq<char>)
    ensures
        without_prefix(s, prefix) == Some(rest) <==> s == prefix + rest,
        without_prefix(s, prefix) is None <==> !prefix.is_prefix_of(s),
{
    if s == prefix + rest {
        assert(s.take(prefix.len() as int) =~= prefix);
        assert(s.skip(prefix.len() as int) =~= rest);
    }
    if let Some(t) = without_prefix(s, prefix) {
        assert(s =~= prefix + t);
    }
}

/// What follows `prefix` in `s`, if `s` starts with it.
pub fn strip_prefix<'a>(s: &'a str, prefix: &str) -> (r: Option<&'a str>)
    ensures
        match r {
            Some(t) => without_prefix(s@, prefix@) == Some(t@),
            None => without_prefix(s@, prefix@) is None,
        },
{
    let n: usize = prefix.unicode_len();
    let m: usize = s.unicode_len();
    if n > m {
        return None;
    }
    let head = s.substring_char(0, n);
    assert(head@ =~= s@.take(n as int));
    if !same(head, prefix) {
        return None;
    }
    let rest = s.substring_char(n, m);
    assert(rest@ =~= s@.skip(n as int));
    Some(rest)
}

/// An ASCII letter in lower case; any other character as it is.
pub open spec fn lower(c: char) -> char {
    if 'A' <= c <= 'Z' {
        (c as int + 32) as char
    } else {
        c
    }
}

/// A text with its ASCII letters in lower case.
pub open spec fn lowered(s: Seq<char>) -> Seq<char> {
    s.map_values(|c: char| lower(c))
}

/// Lower case changes the capital letters of ASCII into the small ones, and nothing else.
pub proof fn lower_case(s: Seq<char>, i: int)
    requires
        0 <= i < s.len(),
    ensures
        lowered(s).len() == s.len(),
        'A' <= s[i] <= 'Z' ==> lowered(s)[i] as int - 'a' as int == s[i] as int
            - 'A' as int,
        !('A' <= s[i] <= 'Z') ==> lowered(s)[i] == s[i],
{
}

/// A text with its ASCII letters in lower case.
pub fn to_lower(s: &str) -> (r: String)
    ensures
        r@ == lowered(s@),
{
    let mut out = String::new();
    for c in it: s.chars()
        invariant
            it.seq() == s@,
            out@ == lowered(s@.take(it.index() as int)),
    {
        let ghost i = it.index() as int;
        let d: char = if 'A' <= c && c <= 'Z' {
            (c as u8 + 32) as char
        } else {
            c
        };
        out.push(d);
        assert(out@ =~= lowered(s@.take(i + 1)));
    }
    assert(s@.take(s@.len() as int) =~= s@);
    out
}

/// What a text denotes as a number up to `max`: digits, after an optional plus sign.
pub open spec fn number_of(s: Seq<char>, max: nat) -> Option<nat> {
    let d = if s.len() > 0 && s[0] == '+' {
        s.skip(1)
    } else {
        s
    };
    if d.len() > 0 && all_digits(d) && decimal_value(d) <= max {
        Some(decimal_value(d))
    } else {
        None
    }
}

/// The value of digits in a row: those in front count ten times for each one behind.
proof fn value_of_digits(a: Seq<char>, b: Seq<char>)
    requires
        all_digits(a),
        decimal_value(a) == 0,
    ensures
        decimal_value(a + b) == decimal_value(b),
    decreases b.len(),
{
    if b.len() == 0 {
        assert(a + b =~= a);
    } else {
        value_of_digits(a, b.drop_last());
        assert((a + b).drop_last() =~= a + b.drop_last());
    }
}

proof fn value_of_zeros(zeros: Seq<char>)
    requires
        forall|i: int| 0 <= i < zeros.len() ==> #[trigger] zeros[i] == '0',
    ensures
        all_digits(zeros),
        decimal_value(zeros) == 0,
    decreases zeros.len(),
{
    if zeros.len() > 0 {
        value_of_zeros(zeros.drop_last());
        assert(zeros[zeros.len() - 1] == '0');
    }
}

/// A number in base 10 is read back if it is not above the limit, whether or not zeros stand before
/// it and a plus sign before those; above the limit it is no number.
pub proof fn numbers_are_read(zeros: Seq<char>, n: nat, max: nat)
    requires
        forall|i: int| 0 <= i < zeros.len() ==> #[trigger] zeros[i] == '0',
    ensures
        ({
            let read = if n <= max {
                Some(n)
            } else {
                None
            };
            &&& number_of(zeros + decimal(n), max) == read
            &&& number_of(seq!['+'] + zeros + decimal(n), max) == read
        }),
{
    let d = zeros + decimal(n);
    decimal_is_canonical(n);
    value_of_zeros(zeros);
    value_of_digits(zeros, decimal(n));
    assert forall|i: int| 0 <= i < d.len() implies is_digit(#[trigger] d[i]) by {
        if i < zeros.len() {
            assert(d[i] == zeros[i]);
        } else {
            assert(d[i] == decimal(n)[i - zeros.len()]);
        }
    }
    assert(is_digit(d[0]));
    assert((seq!['+'] + zeros + decimal(n)).skip(1) =~= d);
}

proof fn digits_are_a_number(d: Seq<char>) -> (zeros: Seq<char>)
    requires
        all_digits(d),
        d.len() > 0,
    ensures
        forall|i: int| 0 <= i < zeros.len() ==> #[trigger] zeros[i] == '0',
        d == zeros + decimal(decimal_value(d)),
    decreases d.len(),
{
    if d.len() > 1 && d[0] == '0' {
        let rest = d.skip(1);
        assert forall|i: int| 0 <= i < rest.len() implies is_digit(#[trigger] rest[i]) by {
            assert(rest[i] == d[i + 1]);
        }
        let zeros = digits_are_a_number(rest);
        value_of_zeros(seq!['0']);
        value_of_digits(seq!['0'], rest);
        assert(d =~= seq!['0'] + rest);
        assert(d =~= (seq!['0'] + zeros) + decimal(decimal_value(d)));
        seq!['0'] + zeros
    } else {
        canonical_is_decimal(d);
        assert(d =~= Seq::<char>::empty() + decimal(decimal_value(d)));
        Seq::empty()
    }
}

/// What is read as a number is that number in base 10, up to zeros before it and a plus sign before
/// those; no other text is a number.
pub proof fn only_numbers_are_read(s: Seq<char>, max: nat)
    ensures
        number_of(s, max) matches Some(n) ==> n <= max && exists|zeros: Seq<char>|
            {
                &&& forall|i: int| 0 <= i < zeros.len() ==> #[trigger] zeros[i] == '0'
                &&& s == #[trigger] (zeros + decimal(n)) || s == seq!['+'] + (zeros + decimal(n))
            },
{
    if let Some(n) = number_of(s, max) {
        let plus = s[0] == '+';
        let d = if plus {
            s.skip(1)
        } else {
            s
        };
        let zeros = digits_are_a_number(d);
        assert(s == zeros + decimal(n) || s == seq!['+'] + (zeros + decimal(n))) by {
            if plus {
                assert(s =~= seq!['+'] + (zeros + decimal(n)));
            }
        }
    }
}

/// The 32-bit number that a text denotes.
pub fn parse_u32(s: &str) -> (r: Option<u32>)
    ensures
        match r {
            Some(v) => number_of(s@, 0xffff_ffff) == Some(v as nat),
            None => number_of(s@, 0xffff_ffff) is None,
        },
{
    let n: usize = s.unicode_len();
    let digits: &str = if n > 0 && s.get_char(0) == '+' {
        s.substring_char(1, n)
    } else {
        s
    };
    assert(s@.len() > 0 ==> s@.subrange(1, s@.len() as int) =~= s@.skip(1));
    match parse_digits(digits, 0xffff_ffff) {
        Some(v) => Some(v as u32),
        None => None,
    }
}

/// Why a string of digits, read from the left, does not denote a number up to `max`, if it does not:
/// the first character that is no digit, or that makes the number too large, decides.
pub open spec fn digits_refusal(d: Seq<char>, max: nat) -> Option<Seq<char>>
    decreases d.len(),
{
    if d.len() == 0 {
        None
    } else {
        match digits_refusal(d.drop_last(), max) {
            Some(why) => Some(why),
            None => if !is_digit(d.last()) {
                Some("invalid digit found in string"@)
            } else if decimal_value(d) > max {
                Some("number too large to fit in target type"@)
            } else {
                None
            },
        }
    }
}

/// The number up to `max` that a text denotes, or why it denotes none.
pub open spec fn number_or_why(s: Seq<char>, max: nat) -> Result<nat, Seq<char>> {
    let d = if s.len() > 0 && s[0] == '+' {
        s.skip(1)
    } else {
        s
    };
    if s.len() == 0 {
        Err("cannot parse integer from empty string"@)
    } else if d.len() == 0 {
        Err("invalid digit found in string"@)
    } else {
        match digits_refusal(d, max) {
            Some(why) => Err(why),
            None => Ok(decimal_value(d)),
        }
    }
}

proof fn digits_refusal_is_exact(d: Seq<char>, max: nat)
    ensures
        digits_refusal(d, max) is None <==> all_digits(d) && decimal_value(d) <= max,
    decreases d.len(),
{
    if d.len() > 0 {
        let p = d.drop_last();
        digits_refusal_is_exact(p, max);
        if all_digits(d) {
            assert forall|i: int| 0 <= i < p.len() implies is_digit(#[trigger] p[i]) by {
                assert(p[i] == d[i]);
            }
            assert(is_digit(d[d.len() - 1]));
        }
        if all_digits(p) && is_digit(d.last()) {
            assert forall|i: int| 0 <= i < d.len() implies is_digit(#[trigger] d[i]) by {
                if i < p.len() {
                    assert(p[i] == d[i]);
                }
            }
        }
    }
}

/// A text is refused exactly where it denotes no number.
pub proof fn number_or_why_is_exact(s: Seq<char>, max: nat)
    ensures
        match number_or_why(s, max) {
            Ok(v) => number_of(s, max) == Some(v),
            Err(_) => number_of(s, max) is None,
        },
{
    let d = if s.len() > 0 && s[0] == '+' {
        s.skip(1)
    } else {
        s
    };
    digits_refusal_is_exact(d, max);
}

proof fn digits_refusal_comes_early(d: Seq<char>, max: nat, i: int)
    requires
        0 <= i <= d.len(),
        digits_refusal(d.take(i), max) is Some,
    ensures
        digits_refusal(d, max) == digits_refusal(d.take(i), max),
    decreases d.len() - i,
{
    if i < d.len() {
        assert(d.take(i + 1).drop_last() =~= d.take(i));
        digits_refusal_comes_early(d, max, i + 1);
    } else {
        assert(d.take(i) =~= d);
    }
}

/// Why a text is no number: it is empty, or it is a number above the limit, or a number that is not
/// goes on with something that is no digit.
pub proof fn why_not_a_number(n: nat, max: nat, c: char)
    requires
        !('0' <= c <= '9'),
    ensures
        number_or_why(Seq::empty(), max) == Err::<nat, Seq<char>>(
            "cannot parse integer from empty string"@,
        ),
        n > max ==> number_or_why(decimal(n), max) == Err::<nat, Seq<char>>(
            "number too large to fit in target type"@,
        ),
        n <= max ==> number_or_why(decimal(n).push(c), max) == Err::<nat, Seq<char>>(
            "invalid digit found in string"@,
        ),
{
    decimal_is_canonical(n);
    let d = decimal(n);
    assert(is_digit(d[0]));
    assert(d.push(c).drop_last() =~= d);
    digits_refusal_is_exact(d, max);
    if n > max {
        too_large(d, max);
    }
}

proof fn too_large(d: Seq<char>, max: nat)
    requires
        all_digits(d),
        decimal_value(d) > max,
    ensures
        digits_refusal(d, max) == Some("number too large to fit in target type"@),
    decreases d.len(),
{
    let p = d.drop_last();
    assert forall|i: int| 0 <= i < p.len() implies is_digit(#[trigger] p[i]) by {
        assert(p[i] == d[i]);
    }
    assert(is_digit(d[d.len() - 1]));
    digits_refusal_is_exact(p, max);
    if decimal_value(p) > max {
        too_large(p, max);
    }
}

/// The 16-bit number that a text denotes, or why it denotes none.
pub fn read_u16(s: &str) -> (r: Result<u16, &'static str>)
    ensures
        match r {
            Ok(v) => number_or_why(s@, 0xffff) == Ok::<nat, Seq<char>>(v as nat),
            Err(why) => number_or_why(s@, 0xffff) == Err::<nat, Seq<char>>(why@),
        },
{
    let n: usize = s.unicode_len();
    if n == 0 {
        return Err("cannot parse integer from empty string");
    }
    let digits: &str = if s.get_char(0) == '+' {
        s.substring_char(1, n)
    } else {
        s
    };
    assert(s@.subrange(1, s@.len() as int) =~= s@.skip(1));
    let d = chars_of(digits);
    if d.len() == 0 {
        return Err("invalid digit found in string");
    }
    let mut v: u32 = 0;
    let mut i: usize = 0;
    assert(d@.take(0) =~= Seq::<char>::empty());
    while i < d.len()
        invariant
            i <= d@.len(),
            v <= 0xffff,
            digits_refusal(d@.take(i as int), 0xffff) is None,
            v == decimal_value(d@.take(i as int)),
            d@.len() > 0,
            s@.len() > 0,
            d@ == (if s@[0] == '+' {
                s@.skip(1)
            } else {
                s@
            }),
        decreases d@.len() - i,
    {
        let c: char = d[i];
        assert(d@.take(i + 1).drop_last() =~= d@.take(i as int));
        if c < '0' || c > '9' {
            proof {
                digits_refusal_comes_early(d@, 0xffff, i + 1);
            }
            return Err("invalid digit found in string");
        }
        let w: u32 = v * 10 + (c as u32 - 48);
        if w > 0xffff {
            proof {
                digits_refusal_comes_early(d@, 0xffff, i + 1);
            }
            return Err("number too large to fit in target type");
        }
        v = w;
        i = i + 1;
    }
    assert(d@.take(d@.len() as int) =~= d@);
    Ok(v as u16)
}

/// Two texts in a row.
pub fn concat2(a: &str, b: &str) -> (r: String)
    ensures
        r@ == a@ + b@,
{
    a.to_owned().concat(b)
}

/// Four texts in a row.
pub fn concat4(a: &str, b: &str, c: &str, d: &str) -> (r: String)
    ensures
        r@ == a@ + b@ + c@ + d@,
{
    a.to_owned().concat(b).concat(c).concat(d)
}

/// Three texts in a row.
pub fn concat3(a: &str, b: &str, c: &str) -> (r: String)
    ensures
        r@ == a@ + b@ + c@,
{
    a.to_owned().concat(b).concat(c)
}

} // verus!
