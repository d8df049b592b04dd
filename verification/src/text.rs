//! Small text routines: case folding, ordering, searching and printing.

use vstd::prelude::*;
use vstd::string::*;

verus! {

/// The ASCII lower-case form of one character; every other character is kept.
pub open spec fn lower_char(c: char) -> char {
    if 'A' <= c && c <= 'Z' {
        ((c as u32 + 32) as u32) as char
    } else {
        c
    }
}

/// The ASCII lower-case form of a text.
pub open spec fn lower(s: Seq<char>) -> Seq<char> {
    s.map_values(|c: char| lower_char(c))
}

/// Two texts are the same when ASCII case is ignored.
pub open spec fn same_ignoring_case(a: Seq<char>, b: Seq<char>) -> bool {
    lower(a) == lower(b)
}

fn fold(c: char) -> (r: u32)
    ensures
        r == lower_char(c) as u32,
{
    if 'A' <= c && c <= 'Z' {
        c as u32 + 32
    } else {
        c as u32
    }
}

/// The characters of a text as a vector.
pub fn chars_of(s: &str) -> (r: Vec<char>)
    ensures
        r@ == s@,
{
    let mut out: Vec<char> = Vec::new();
    for c in it: s.chars()
        invariant
            it.seq() == s@,
            out@ == s@.take(it.index() as int),
    {
        out.push(c);
    }
    assert(s@.take(s@.len() as int) =~= s@);
    out
}

/// Whether two texts are equal.
pub fn same_text(a: &str, b: &str) -> (r: bool)
    ensures
        r == (a@ == b@),
{
    let x: String = a.to_owned();
    let y: String = b.to_owned();
    x == y
}

/// Whether two texts are equal when ASCII case is ignored.
pub fn eq_ignore_ascii_case(a: &str, b: &str) -> (r: bool)
    ensures
        r == same_ignoring_case(a@, b@),
{
    let x: Vec<char> = chars_of(a);
    let y: Vec<char> = chars_of(b);
    if x.len() != y.len() {
        assert(lower(a@).len() == a@.len());
        assert(lower(b@).len() == b@.len());
        return false;
    }
    for i in 0..x.len()
        invariant
            x@ == a@,
            y@ == b@,
            x.len() == y.len(),
            forall|j: int| 0 <= j < i ==> lower_char(#[trigger] a@[j]) == lower_char(b@[j]),
    {
        if fold(x[i]) != fold(y[i]) {
            assert(lower(a@)[i as int] != lower(b@)[i as int]);
            return false;
        }
    }
    assert(lower(a@) =~= lower(b@));
    true
}


/// The outcome of comparing two things.
#[derive(Clone, Copy, Debug, PartialEq, Eq, Structural)]
pub enum Order {
    Less,
    Equal,
    Greater,
}

/// The comparison read from the other side.
pub open spec fn flip(o: Order) -> Order {
    match o {
        Order::Less => Order::Greater,
        Order::Equal => Order::Equal,
        Order::Greater => Order::Less,
    }
}

/// How two numbers compare.
pub open spec fn int_order(a: int, b: int) -> Order {
    if a < b {
        Order::Less
    } else if a == b {
        Order::Equal
    } else {
        Order::Greater
    }
}

/// How two sequences of numbers compare, first difference first.
pub open spec fn lex_order(a: Seq<int>, b: Seq<int>) -> Order
    decreases a.len(),
{
    if a.len() == 0 || b.len() == 0 {
        int_order(a.len() as int, b.len() as int)
    } else if a[0] != b[0] {
        int_order(a[0], b[0])
    } else {
        lex_order(a.drop_first(), b.drop_first())
    }
}

/// The code points of a text.
pub open spec fn codes(s: Seq<char>) -> Seq<int> {
    s.map_values(|c: char| c as int)
}

/// The bytes of a byte string, as numbers.
pub open spec fn octets(s: Seq<u8>) -> Seq<int> {
    s.map_values(|b: u8| b as int)
}

/// How two texts compare, by code point.
pub open spec fn text_order(a: Seq<char>, b: Seq<char>) -> Order {
    lex_order(codes(a), codes(b))
}

/// How two byte strings compare.
pub open spec fn bytes_order(a: Seq<u8>, b: Seq<u8>) -> Order {
    lex_order(octets(a), octets(b))
}

pub proof fn lemma_lex_flip(a: Seq<int>, b: Seq<int>)
    ensures
        lex_order(b, a) == flip(lex_order(a, b)),
    decreases a.len(),
{
    if a.len() != 0 && b.len() != 0 && a[0] == b[0] {
        lemma_lex_flip(a.drop_first(), b.drop_first());
    }
}

pub proof fn lemma_lex_equal(a: Seq<int>, b: Seq<int>)
    ensures
        lex_order(a, b) == Order::Equal <==> a == b,
    decreases a.len(),
{
    if a.len() != 0 && b.len() != 0 && a[0] == b[0] {
        lemma_lex_equal(a.drop_first(), b.drop_first());
        assert(a =~= seq![a[0]] + a.drop_first());
        assert(b =~= seq![b[0]] + b.drop_first());
    } else if a.len() == 0 && b.len() == 0 {
        assert(a =~= b);
    }
}

pub proof fn lemma_lex_transitive(a: Seq<int>, b: Seq<int>, c: Seq<int>)
    requires
        lex_order(a, b) != Order::Greater,
        lex_order(b, c) != Order::Greater,
    ensures
        lex_order(a, c) != Order::Greater,
        lex_order(a, c) == Order::Equal ==> lex_order(a, b) == Order::Equal && lex_order(b, c)
            == Order::Equal,
    decreases a.len(),
{
    if a.len() != 0 && b.len() != 0 && c.len() != 0 && a[0] == b[0] && b[0] == c[0] {
        lemma_lex_transitive(a.drop_first(), b.drop_first(), c.drop_first());
    }
}

pub proof fn lemma_codes_injective(a: Seq<char>, b: Seq<char>)
    ensures
        codes(a) == codes(b) <==> a == b,
{
    if codes(a) == codes(b) {
        assert(codes(a).len() == codes(b).len());
        assert forall|i: int| 0 <= i < a.len() implies a[i] == b[i] by {
            assert(codes(a)[i] == codes(b)[i]);
        }
        assert(a =~= b);
    }
}

/// Compares two integers.
pub fn compare_ints(a: i128, b: i128) -> (r: Order)
    ensures
        r == int_order(a as int, b as int),
{
    if a < b {
        Order::Less
    } else if a == b {
        Order::Equal
    } else {
        Order::Greater
    }
}

/// Compares two texts by code point.
pub fn compare_text(a: &str, b: &str) -> (r: Order)
    ensures
        r == text_order(a@, b@),
{
    let x: Vec<char> = chars_of(a);
    let y: Vec<char> = chars_of(b);
    let ghost ca = codes(a@);
    let ghost cb = codes(b@);
    let mut i: usize = 0;
    assert(ca.skip(0) =~= ca);
    assert(cb.skip(0) =~= cb);
    while i < x.len() && i < y.len()
        invariant
            x@ == a@,
            y@ == b@,
            ca == codes(a@),
            cb == codes(b@),
            i <= x.len(),
            i <= y.len(),
            lex_order(ca.skip(i as int), cb.skip(i as int)) == lex_order(ca, cb),
        decreases x.len() - i,
    {
        assert(ca.skip(i as int)[0] == a@[i as int] as int);
        assert(cb.skip(i as int)[0] == b@[i as int] as int);
        if x[i] < y[i] {
            return Order::Less;
        }
        if y[i] < x[i] {
            return Order::Greater;
        }
        assert(ca.skip(i as int).drop_first() =~= ca.skip(i + 1));
        assert(cb.skip(i as int).drop_first() =~= cb.skip(i + 1));
        i = i + 1;
    }
    assert(ca.skip(i as int).len() == x.len() - i);
    assert(cb.skip(i as int).len() == y.len() - i);
    if x.len() < y.len() {
        Order::Less
    } else if x.len() == y.len() {
        Order::Equal
    } else {
        Order::Greater
    }
}

/// Compares two byte strings.
pub fn compare_bytes(x: &Vec<u8>, y: &Vec<u8>) -> (r: Order)
    ensures
        r == bytes_order(x@, y@),
{
    let ghost ca = octets(x@);
    let ghost cb = octets(y@);
    let mut i: usize = 0;
    assert(ca.skip(0) =~= ca);
    assert(cb.skip(0) =~= cb);
    while i < x.len() && i < y.len()
        invariant
            ca == octets(x@),
            cb == octets(y@),
            i <= x.len(),
            i <= y.len(),
            lex_order(ca.skip(i as int), cb.skip(i as int)) == lex_order(ca, cb),
        decreases x.len() - i,
    {
        assert(ca.skip(i as int)[0] == x@[i as int] as int);
        assert(cb.skip(i as int)[0] == y@[i as int] as int);
        if x[i] < y[i] {
            return Order::Less;
        }
        if y[i] < x[i] {
            return Order::Greater;
        }
        assert(ca.skip(i as int).drop_first() =~= ca.skip(i + 1));
        assert(cb.skip(i as int).drop_first() =~= cb.skip(i + 1));
        i = i + 1;
    }
    assert(ca.skip(i as int).len() == x.len() - i);
    assert(cb.skip(i as int).len() == y.len() - i);
    if x.len() < y.len() {
        Order::Less
    } else if x.len() == y.len() {
        Order::Equal
    } else {
        Order::Greater
    }
}

/// The position of the first `c` in a text, or the text's length when there is none.
pub open spec fn first_position(s: Seq<char>, c: char) -> nat
    decreases s.len(),
{
    if s.len() == 0 || s[0] == c {
        0
    } else {
        1 + first_position(s.drop_first(), c)
    }
}

/// The part of a text behind its last `.`: the whole text when it has none.
pub open spec fn last_segment(s: Seq<char>) -> Seq<char>
    decreases s.len(),
{
    if s.len() == 0 {
        s
    } else if s.last() == '.' {
        Seq::empty()
    } else {
        last_segment(s.drop_last()).push(s.last())
    }
}

/// The part of a text behind its last `.`.
pub fn after_last_dot(s: &str) -> (r: String)
    ensures
        r@ == last_segment(s@),
{
    let x: Vec<char> = chars_of(s);
    let mut i: usize = x.len();
    assert(s@.take(s@.len() as int) =~= s@);
    assert(s@.subrange(s@.len() as int, s@.len() as int) =~= Seq::<char>::empty());
    assert(last_segment(s@) =~= last_segment(s@) + Seq::<char>::empty());
    while i > 0
        invariant
            x@ == s@,
            i <= x.len(),
            last_segment(s@) == last_segment(s@.take(i as int)) + s@.subrange(
                i as int,
                s@.len() as int,
            ),
        decreases i,
    {
        let ghost t = s@.take(i as int);
        if x[i - 1] == '.' {
            assert(t.last() == '.');
            assert(last_segment(s@) =~= s@.subrange(i as int, s@.len() as int));
            return s.substring_char(i, x.len()).to_owned();
        }
        assert(t.drop_last() =~= s@.take(i - 1));
        assert(last_segment(t) == last_segment(t.drop_last()).push(t.last()));
        assert(last_segment(s@) =~= last_segment(s@.take(i - 1)) + s@.subrange(
            i - 1,
            s@.len() as int,
        ));
        i = i - 1;
    }
    assert(s@.take(0).len() == 0);
    assert(last_segment(s@) =~= s@);
    s.to_owned()
}

/// Whether a character occurs in a text.
pub fn contains_char(s: &str, c: char) -> (r: bool)
    ensures
        r == s@.contains(c),
{
    let x: Vec<char> = chars_of(s);
    for i in 0..x.len()
        invariant
            x@ == s@,
            forall|j: int| 0 <= j < i ==> s@[j] != c,
    {
        if x[i] == c {
            assert(s@[i as int] == c);
            return true;
        }
    }
    false
}

/// The character of a decimal digit.
pub open spec fn digit_char(d: int) -> char {
    ((48 + d) as u32) as char
}

/// The decimal digits of a number, most significant first.
pub open spec fn decimal(n: nat) -> Seq<char>
    decreases n,
{
    if n < 10 {
        seq![digit_char(n as int)]
    } else {
        decimal(n / 10).push(digit_char((n % 10) as int))
    }
}

fn push_digit(out: &mut String, d: u128)
    requires
        d < 10,
    ensures
        final(out)@ == old(out)@.push(digit_char(d as int)),
{
    proof {
        reveal_strlit("0");
        reveal_strlit("1");
        reveal_strlit("2");
        reveal_strlit("3");
        reveal_strlit("4");
        reveal_strlit("5");
        reveal_strlit("6");
        reveal_strlit("7");
        reveal_strlit("8");
        reveal_strlit("9");
    }
    let t: &str = if d == 0 {
        "0"
    } else if d == 1 {
        "1"
    } else if d == 2 {
        "2"
    } else if d == 3 {
        "3"
    } else if d == 4 {
        "4"
    } else if d == 5 {
        "5"
    } else if d == 6 {
        "6"
    } else if d == 7 {
        "7"
    } else if d == 8 {
        "8"
    } else {
        "9"
    };
    let ghost before = out@;
    out.append(t);
    assert(t@ =~= seq![digit_char(d as int)]);
    assert(before + t@ =~= before.push(digit_char(d as int)));
}

/// Appends a number in decimal.
pub fn append_decimal(out: &mut String, n: u128)
    ensures
        final(out)@ == old(out)@ + decimal(n as nat),
    decreases n,
{
    let ghost before = out@;
    if n >= 10 {
        append_decimal(out, n / 10);
        push_digit(out, n % 10);
        assert(out@ =~= before + decimal(n as nat));
    } else {
        push_digit(out, n);
        assert(out@ =~= before + decimal(n as nat));
    }
}

/// The value of a run of decimal digits, `None` where a character is no digit.
pub open spec fn digits_value(s: Seq<char>) -> Option<nat>
    decreases s.len(),
{
    if s.len() == 0 {
        Some(0)
    } else {
        match digits_value(s.drop_last()) {
            Some(v) => if '0' <= s.last() && s.last() <= '9' {
                Some((v * 10 + (s.last() as int - 48)) as nat)
            } else {
                None
            },
            None => None,
        }
    }
}

/// The integer that a text spells: an optional sign and at least one digit.
pub open spec fn spelled_int(s: Seq<char>) -> Option<int> {
    if s.len() > 1 && s[0] == '-' {
        match digits_value(s.drop_first()) {
            Some(v) => Some(-(v as int)),
            None => None,
        }
    } else if s.len() > 1 && s[0] == '+' {
        match digits_value(s.drop_first()) {
            Some(v) => Some(v as int),
            None => None,
        }
    } else if s.len() > 0 {
        match digits_value(s) {
            Some(v) => Some(v as int),
            None => None,
        }
    } else {
        None
    }
}

/// The signed 64-bit integer that a text spells.
pub open spec fn spelled_i64(s: Seq<char>) -> Option<i64> {
    match spelled_int(s) {
        Some(v) => if i64::MIN <= v <= i64::MAX {
            Some(v as i64)
        } else {
            None
        },
        None => None,
    }
}

/// The `usize` that a text spells; a leading `-` spells none.
pub open spec fn spelled_usize(s: Seq<char>) -> Option<usize> {
    if s.len() > 0 && s[0] == '-' {
        None
    } else {
        match spelled_int(s) {
            Some(v) => if v <= usize::MAX {
                Some(v as usize)
            } else {
                None
            },
            None => None,
        }
    }
}

proof fn lemma_digits_prefix(s: Seq<char>, n: int)
    requires
        0 <= n <= s.len(),
    ensures
        digits_value(s.take(n)) is None ==> digits_value(s) is None,
        digits_value(s.take(n)) matches Some(v) ==> (digits_value(s) matches Some(w) ==> v <= w),
    decreases s.len(),
{
    if n == s.len() {
        assert(s.take(n) =~= s);
    } else {
        lemma_digits_prefix(s.drop_last(), n);
        assert(s.drop_last().take(n) =~= s.take(n));
    }
}

/// Reads the digits from position `from` on, as far as they stay below `2^64`.
fn read_digits(x: &Vec<char>, from: usize) -> (r: Option<u64>)
    requires
        from <= x.len(),
    ensures
        match digits_value(x@.skip(from as int)) {
            Some(v) => r == (if v <= u64::MAX {
                Some(v as u64)
            } else {
                None
            }),
            None => r is None,
        },
{
    let ghost s = x@.skip(from as int);
    let mut v: u64 = 0;
    let mut i: usize = from;
    assert(s.take(0) =~= Seq::<char>::empty());
    while i < x.len()
        invariant
            s == x@.skip(from as int),
            from <= i <= x.len(),
            digits_value(s.take(i - from)) == Some(v as nat),
        decreases x.len() - i,
    {
        let c: char = x[i];
        let ghost t = s.take(i - from + 1);
        assert(t.drop_last() =~= s.take(i - from));
        assert(t.last() == c);
        proof {
            lemma_digits_prefix(s, i - from + 1);
        }
        if !('0' <= c && c <= '9') {
            return None;
        }
        let d: u64 = (c as u32 - 48) as u64;
        if v > u64::MAX / 10 || v * 10 > u64::MAX - d {
            return None;
        }
        v = v * 10 + d;
        i = i + 1;
    }
    assert(s.take(x.len() - from) =~= s);
    Some(v)
}

/// The `i64` that a text spells.
pub fn parse_i64(s: &str) -> (r: Option<i64>)
    ensures
        r == spelled_i64(s@),
{
    let x: Vec<char> = chars_of(s);
    assert(x@.skip(0) =~= s@);
    assert(x.len() > 0 ==> x@.skip(1) =~= s@.drop_first());
    if x.len() > 1 && x[0] == '-' {
        match read_digits(&x, 1) {
            Some(v) => {
                if v < 9223372036854775808 {
                    Some(-(v as i64))
                } else if v == 9223372036854775808 {
                    Some(i64::MIN)
                } else {
                    None
                }
            },
            None => None,
        }
    } else {
        let from: usize = if x.len() > 1 && x[0] == '+' {
            1
        } else {
            0
        };
        if x.len() == 0 {
            return None;
        }
        match read_digits(&x, from) {
            Some(v) => {
                if v < 9223372036854775808 {
                    Some(v as i64)
                } else {
                    None
                }
            },
            None => None,
        }
    }
}

/// The `usize` that a text spells.
pub fn parse_usize(s: &str) -> (r: Option<usize>)
    ensures
        r == spelled_usize(s@),
{
    let x: Vec<char> = chars_of(s);
    assert(x@.skip(0) =~= s@);
    assert(x.len() > 0 ==> x@.skip(1) =~= s@.drop_first());
    if x.len() == 0 || x[0] == '-' {
        return None;
    }
    let from: usize = if x.len() > 1 && x[0] == '+' {
        1
    } else {
        0
    };
    match read_digits(&x, from) {
        Some(v) => {
            if v <= usize::MAX as u64 {
                Some(v as usize)
            } else {
                None
            }
        },
        None => None,
    }
}

/// A text made of three pieces.
pub fn concat3(a: &str, b: &str, c: &str) -> (r: String)
    ensures
        r@ == a@ + b@ + c@,
{
    let mut out: String = a.to_owned();
    out.append(b);
    out.append(c);
    out
}

/// A text, a number in decimal, and a text.
pub fn concat_number(a: &str, n: u128, c: &str) -> (r: String)
    ensures
        r@ == a@ + decimal(n as nat) + c@,
{
    let mut out: String = a.to_owned();
    append_decimal(&mut out, n);
    out.append(c);
    out
}

/// The characters that count as white space.
pub open spec fn is_blank(c: char) -> bool {
    ||| 0x9 <= c as u32 <= 0xd
    ||| c as u32 == 0x20
    ||| c as u32 == 0x85
    ||| c as u32 == 0xa0
    ||| c as u32 == 0x1680
    ||| 0x2000 <= c as u32 <= 0x200a
    ||| c as u32 == 0x2028
    ||| c as u32 == 0x2029
    ||| c as u32 == 0x202f
    ||| c as u32 == 0x205f
    ||| c as u32 == 0x3000
}

fn blank(c: char) -> (r: bool)
    ensures
        r == is_blank(c),
{
    let n: u32 = c as u32;
    (0x9 <= n && n <= 0xd) || n == 0x20 || n == 0x85 || n == 0xa0 || n == 0x1680 || (0x2000 <= n && n
        <= 0x200a) || n == 0x2028 || n == 0x2029 || n == 0x202f || n == 0x205f || n == 0x3000
}

/// A text without its leading white space.
pub open spec fn trim_front(s: Seq<char>) -> Seq<char>
    decreases s.len(),
{
    if s.len() > 0 && is_blank(s[0]) {
        trim_front(s.drop_first())
    } else {
        s
    }
}

/// A text without its trailing white space.
pub open spec fn trim_back(s: Seq<char>) -> Seq<char>
    decreases s.len(),
{
    if s.len() > 0 && is_blank(s.last()) {
        trim_back(s.drop_last())
    } else {
        s
    }
}

/// A text without the white space around it.
pub open spec fn trimmed(s: Seq<char>) -> Seq<char> {
    trim_back(trim_front(s))
}

/// Removes the white space around a text.
pub fn trim(s: &str) -> (r: String)
    ensures
        r@ == trimmed(s@),
{
    let x: Vec<char> = chars_of(s);
    let mut i: usize = 0;
    assert(s@.skip(0) =~= s@);
    while i < x.len() && blank(x[i])
        invariant
            x@ == s@,
            i <= x.len(),
            trim_front(s@.skip(i as int)) == trim_front(s@),
        decreases x.len() - i,
    {
        assert(s@.skip(i as int).drop_first() =~= s@.skip(i + 1));
        i = i + 1;
    }
    let ghost t = s@.skip(i as int);
    let mut n: usize = x.len();
    assert(t.take(t.len() as int) =~= t);
    while n > i && blank(x[n - 1])
        invariant
            x@ == s@,
            i <= n <= x.len(),
            t == s@.skip(i as int),
            trim_back(t.take(n - i)) == trim_back(t),
        decreases n - i,
    {
        assert(t.take(n - i).last() == x@[n - 1]);
        assert(t.take(n - i).drop_last() =~= t.take(n - i - 1));
        n = n - 1;
    }
    assert(n > i ==> t.take(n - i).last() == x@[n - 1]);
    assert(s@.subrange(i as int, n as int) =~= t.take(n - i));
    s.substring_char(i, n).to_owned()
}

proof fn lemma_digit_value(d: int)
    requires
        0 <= d < 10,
    ensures
        '0' <= digit_char(d) <= '9',
        digit_char(d) as int - 48 == d,
{
}

proof fn lemma_written_digits(n: nat)
    ensures
        decimal(n).len() > 0,
        digits_value(decimal(n)) == Some(n),
        '0' <= decimal(n)[0] <= '9',
    decreases n,
{
    let s = decimal(n);
    if n < 10 {
        lemma_digit_value(n as int);
        assert(s.drop_last() =~= Seq::<char>::empty());
        assert(digits_value(s.drop_last()) == Some(0nat));
        assert(s.last() == digit_char(n as int));
    } else {
        lemma_written_digits(n / 10);
        lemma_digit_value((n % 10) as int);
        assert(s.drop_last() =~= decimal(n / 10));
        assert(s.last() == digit_char((n % 10) as int));
    }
}

/// A number that is written out reads back as that number, with or without a sign.
pub proof fn law_numbers_read_back_as_written(n: nat)
    ensures
        spelled_int(decimal(n)) == Some(n as int),
        spelled_int(seq!['+'] + decimal(n)) == Some(n as int),
        spelled_int(seq!['-'] + decimal(n)) == Some(-(n as int)),
        n <= i64::MAX ==> spelled_i64(decimal(n)) == Some(n as i64),
        n <= usize::MAX ==> spelled_usize(decimal(n)) == Some(n as usize),
{
    let s = decimal(n);
    lemma_written_digits(n);
    assert((seq!['+'] + s).drop_first() =~= s);
    assert((seq!['-'] + s).drop_first() =~= s);
}

/// Trimming a text takes blanks off both of its ends and nothing else: what is left begins
/// and ends with no blank, and lies between blanks in the text.
pub proof fn law_trimming_takes_the_blanks_off_the_ends(s: Seq<char>)
    ensures
        trimmed(s).len() > 0 ==> !is_blank(trimmed(s)[0]) && !is_blank(trimmed(s).last()),
        exists|i: int, j: int|
            {
                &&& 0 <= i <= j <= s.len()
                &&& #[trigger] s.subrange(i, j) == trimmed(s)
                &&& forall|k: int| 0 <= k < i || j <= k < s.len() ==> is_blank(#[trigger] s[k])
            },
{
    let front = trim_front(s);
    let i = lemma_front_trimmed(s);
    let j = lemma_back_trimmed(front);
    assert(front =~= s.skip(i));
    assert(trimmed(s) =~= s.subrange(i, i + j));
    assert forall|k: int| 0 <= k < i || i + j <= k < s.len() implies is_blank(#[trigger] s[k]) by {
        if k >= i + j {
            assert(front[k - i] == s[k]);
        }
    }
    if trimmed(s).len() > 0 {
        assert(trimmed(s)[0] == front[0]);
    }
}

proof fn lemma_front_trimmed(s: Seq<char>) -> (i: int)
    ensures
        0 <= i <= s.len(),
        trim_front(s) == s.skip(i),
        forall|k: int| 0 <= k < i ==> is_blank(#[trigger] s[k]),
        i < s.len() ==> !is_blank(s[i]),
    decreases s.len(),
{
    if s.len() > 0 && is_blank(s[0]) {
        let rest = s.drop_first();
        let n = lemma_front_trimmed(rest);
        assert(rest.skip(n) =~= s.skip(n + 1));
        assert forall|k: int| 0 <= k < n + 1 implies is_blank(#[trigger] s[k]) by {
            if k > 0 {
                assert(rest[k - 1] == s[k]);
            }
        }
        if n < rest.len() {
            assert(rest[n] == s[n + 1]);
        }
        n + 1
    } else {
        assert(s.skip(0) =~= s);
        0
    }
}

proof fn lemma_back_trimmed(s: Seq<char>) -> (j: int)
    ensures
        0 <= j <= s.len(),
        trim_back(s) == s.take(j),
        forall|k: int| j <= k < s.len() ==> is_blank(#[trigger] s[k]),
        j > 0 ==> !is_blank(s[j - 1]),
    decreases s.len(),
{
    if s.len() > 0 && is_blank(s.last()) {
        let rest = s.drop_last();
        let n = lemma_back_trimmed(rest);
        assert(rest.take(n) =~= s.take(n));
        assert forall|k: int| n <= k < s.len() implies is_blank(#[trigger] s[k]) by {
            if k < rest.len() {
                assert(rest[k] == s[k]);
            }
        }
        if n > 0 {
            assert(rest[n - 1] == s[n - 1]);
        }
        n
    } else {
        assert(s.take(s.len() as int) =~= s);
        s.len() as int
    }
}

} // verus!
