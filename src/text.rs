use vstd::prelude::*;

verus! {

/// The lower-case hexadecimal digit for `d` (`d < 16`); also the decimal digit for `d < 10`.
pub open spec fn hex_char(d: nat) -> char {
    if d == 0 { '0' }
    else if d == 1 { '1' }
    else if d == 2 { '2' }
    else if d == 3 { '3' }
    else if d == 4 { '4' }
    else if d == 5 { '5' }
    else if d == 6 { '6' }
    else if d == 7 { '7' }
    else if d == 8 { '8' }
    else if d == 9 { '9' }
    else if d == 10 { 'a' }
    else if d == 11 { 'b' }
    else if d == 12 { 'c' }
    else if d == 13 { 'd' }
    else if d == 14 { 'e' }
    else { 'f' }
}

pub open spec fn is_digit(c: char) -> bool {
    '0' <= c && c <= '9'
}

/// The decimal digits of `n`, most significant first, without leading zeros.
pub open spec fn natural_text(n: nat) -> Seq<char>
    decreases n,
{
    if n < 10 {
        seq![hex_char(n)]
    } else {
        natural_text(n / 10).push(hex_char(n % 10))
    }
}

/// The decimal text of an integer, as `Display` writes it: a minus sign for
/// negative values, then the digits.
pub open spec fn decimal_text(v: int) -> Seq<char> {
    if v < 0 {
        seq!['-'] + natural_text((-v) as nat)
    } else {
        natural_text(v as nat)
    }
}

/// The last `n` hexadecimal digits of `v`, most significant first.
pub open spec fn hex_text(v: nat, n: nat) -> Seq<char>
    decreases n,
{
    if n == 0 {
        Seq::empty()
    } else {
        hex_text(v / 16, (n - 1) as nat).push(hex_char(v % 16))
    }
}

/// The hyphenated lower-case text of a 128-bit identifier
/// (`xxxxxxxx-xxxx-xxxx-xxxx-xxxxxxxxxxxx`).
pub open spec fn uuid_text(v: u128) -> Seq<char> {
    let h = hex_text(v as nat, 32);
    h.subrange(0, 8) + seq!['-'] + h.subrange(8, 12) + seq!['-'] + h.subrange(12, 16) + seq!['-']
        + h.subrange(16, 20) + seq!['-'] + h.subrange(20, 32)
}

pub proof fn lemma_hex_text_len(v: nat, n: nat)
    ensures
        hex_text(v, n).len() == n,
    decreases n,
{
    if n > 0 {
        lemma_hex_text_len(v / 16, (n - 1) as nat);
    }
}

pub proof fn lemma_uuid_text_len(v: u128)
    ensures
        uuid_text(v).len() == 36,
{
    lemma_hex_text_len(v as nat, 32);
}

pub proof fn lemma_natural_text_digits(n: nat)
    ensures
        natural_text(n).len() > 0,
        forall|i: int| 0 <= i < natural_text(n).len() ==> is_digit(#[trigger] natural_text(n)[i]),
    decreases n,
{
    if n >= 10 {
        lemma_natural_text_digits(n / 10);
    }
}

pub open spec fn pow16(n: nat) -> nat
    decreases n,
{
    if n == 0 { 1 } else { 16 * pow16((n - 1) as nat) }
}

pub proof fn lemma_hex_char_injective(a: nat, b: nat)
    requires
        a < 16,
        b < 16,
        hex_char(a) == hex_char(b),
    ensures
        a == b,
{
}

pub proof fn lemma_hex_text_injective(v: nat, w: nat, n: nat)
    requires
        hex_text(v, n) == hex_text(w, n),
        v < pow16(n),
        w < pow16(n),
    ensures
        v == w,
    decreases n,
{
    if n > 0 {
        let m = (n - 1) as nat;
        let hv = hex_text(v, n);
        let hw = hex_text(w, n);
        assert(hv.last() == hex_char(v % 16));
        assert(hw.last() == hex_char(w % 16));
        lemma_hex_char_injective(v % 16, w % 16);
        assert(hv.drop_last() =~= hex_text(v / 16, m));
        assert(hw.drop_last() =~= hex_text(w / 16, m));
        assert(v / 16 < pow16(m)) by (nonlinear_arith)
            requires v < 16 * pow16(m);
        assert(w / 16 < pow16(m)) by (nonlinear_arith)
            requires w < 16 * pow16(m);
        lemma_hex_text_injective(v / 16, w / 16, m);
    }
}

pub proof fn lemma_uuid_text_injective(v: u128, w: u128)
    requires
        uuid_text(v) == uuid_text(w),
    ensures
        v == w,
{
    lemma_hex_text_len(v as nat, 32);
    lemma_hex_text_len(w as nat, 32);
    let hv = hex_text(v as nat, 32);
    let hw = hex_text(w as nat, 32);
    let u = uuid_text(v);
    assert(hv =~= u.subrange(0, 8) + u.subrange(9, 13) + u.subrange(14, 18) + u.subrange(19, 23)
        + u.subrange(24, 36));
    assert(hw =~= u.subrange(0, 8) + u.subrange(9, 13) + u.subrange(14, 18) + u.subrange(19, 23)
        + u.subrange(24, 36));
    assert(pow16(32) == 0x1_0000_0000_0000_0000_0000_0000_0000_0000) by {
        reveal_with_fuel(pow16, 33);
    }
    lemma_hex_text_injective(v as nat, w as nat, 32);
}

pub proof fn lemma_natural_text_injective(n: nat, m: nat)
    requires
        natural_text(n) == natural_text(m),
    ensures
        n == m,
    decreases n,
{
    lemma_natural_text_digits(n / 10);
    lemma_natural_text_digits(m / 10);
    if n < 10 && m < 10 {
        assert(natural_text(n)[0] == hex_char(n));
        assert(natural_text(m)[0] == hex_char(m));
        lemma_hex_char_injective(n, m);
    } else if n < 10 {
        assert(natural_text(m).len() >= 2);
    } else if m < 10 {
        assert(natural_text(n).len() >= 2);
    } else {
        assert(natural_text(n).last() == hex_char(n % 10));
        assert(natural_text(m).last() == hex_char(m % 10));
        lemma_hex_char_injective(n % 10, m % 10);
        assert(natural_text(n).drop_last() =~= natural_text(n / 10));
        assert(natural_text(m).drop_last() =~= natural_text(m / 10));
        lemma_natural_text_injective(n / 10, m / 10);
    }
}

/// Every character of a decimal text after the first is a digit; the first is
/// a digit or a minus sign.
pub proof fn lemma_decimal_text_shape(v: int)
    ensures
        decimal_text(v).len() > 0,
        decimal_text(v)[0] == '-' <==> v < 0,
        v >= 0 ==> is_digit(decimal_text(v)[0]),
        forall|i: int| 1 <= i < decimal_text(v).len() ==> is_digit(#[trigger] decimal_text(v)[i]),
{
    if v < 0 {
        lemma_natural_text_digits((-v) as nat);
        assert forall|i: int| 1 <= i < decimal_text(v).len() implies is_digit(
            #[trigger] decimal_text(v)[i],
        ) by {
            assert(decimal_text(v)[i] == natural_text((-v) as nat)[i - 1]);
        }
    } else {
        lemma_natural_text_digits(v as nat);
    }
}

/// A decimal text followed by a character that is no digit ends where the
/// text ends: two such texts that stand at the same place are the same.
pub proof fn lemma_decimal_text_prefix(a: int, b: int, x: Seq<char>, y: Seq<char>)
    requires
        decimal_text(a) + x == decimal_text(b) + y,
        x.len() > 0,
        y.len() > 0,
        !is_digit(x[0]),
        !is_digit(y[0]),
    ensures
        a == b,
        x == y,
{
    let da = decimal_text(a);
    let db = decimal_text(b);
    lemma_decimal_text_shape(a);
    lemma_decimal_text_shape(b);
    let s = da + x;
    if da.len() < db.len() {
        assert(s[da.len() as int] == x[0]);
        assert(s[da.len() as int] == db[da.len() as int]);
        if da.len() == 0 {
        }
    } else if db.len() < da.len() {
        assert(s[db.len() as int] == y[0]);
        assert(s[db.len() as int] == da[db.len() as int]);
    } else {
        assert(da =~= s.take(da.len() as int));
        assert(db =~= s.take(da.len() as int));
        assert(x =~= s.skip(da.len() as int));
        assert(y =~= s.skip(da.len() as int));
        if a < 0 && b < 0 {
            assert(da.skip(1) =~= natural_text((-a) as nat));
            assert(db.skip(1) =~= natural_text((-b) as nat));
            lemma_natural_text_injective((-a) as nat, (-b) as nat);
        } else if a >= 0 && b >= 0 {
            lemma_natural_text_injective(a as nat, b as nat);
        }
    }
}

/// Relies on `String::push`: the character is appended.
#[verifier::external_body]
pub(crate) fn push_char(s: &mut String, c: char)
    ensures
        final(s)@ == old(s)@.push(c),
{
    s.push(c)
}

/// The decimal digits of `n`.
fn natural_digits(n: u64) -> (r: Vec<char>)
    ensures
        r@ == natural_text(n as nat),
{
    if n == 0 {
        let r = vec!['0'];
        assert(r@ =~= natural_text(0));
        return r;
    }
    let mut out: Vec<char> = Vec::new();
    let mut m: u64 = n;
    while m > 0
        invariant
            natural_text(n as nat) == (if m > 0 { natural_text(m as nat) } else { Seq::<char>::empty() })
                + out@,
        decreases m,
    {
        let d = crate::json::hex_digit((m % 10) as u32);
        let ghost before = out@;
        out.insert(0, d);
        proof {
            assert(out@ =~= seq![d] + before);
            if m >= 10 {
                assert(natural_text(m as nat) == natural_text((m / 10) as nat).push(d));
                assert(natural_text((m / 10) as nat).push(d) + before =~= natural_text((m / 10) as nat)
                    + out@);
            } else {
                assert(natural_text(m as nat) == seq![d]);
                assert(Seq::<char>::empty() + out@ =~= seq![d] + before);
            }
        }
        m = m / 10;
    }
    assert(Seq::<char>::empty() + out@ =~= out@);
    out
}

/// The decimal text of `v`, as `Display` for `i64` writes it.
pub(crate) fn int_text(v: i64) -> (r: String)
    ensures
        r@ == decimal_text(v as int),
{
    let mag: u64 = if v < 0 {
        ((-(v + 1)) as u64) + 1
    } else {
        v as u64
    };
    let digits = natural_digits(mag);
    let mut s = String::new();
    if v < 0 {
        push_char(&mut s, '-');
    }
    let ghost start = s@;
    let mut i: usize = 0;
    while i < digits.len()
        invariant
            i <= digits@.len(),
            s@ == start + digits@.subrange(0, i as int),
        decreases digits@.len() - i,
    {
        push_char(&mut s, digits[i]);
        i += 1;
        assert(s@ =~= start + digits@.subrange(0, i as int));
    }
    assert(digits@.subrange(0, i as int) =~= digits@);
    if v < 0 {
        assert(mag as int == -(v as int));
        assert(s@ =~= seq!['-'] + natural_text((-(v as int)) as nat));
    } else {
        assert(start =~= Seq::<char>::empty());
        assert(s@ =~= natural_text(v as nat));
    }
    s
}

/// Relies on `FromStr` for `i64`: the decimal text of a value parses back to it.
#[verifier::external_body]
fn parse_i64(s: &str) -> (r: Option<i64>)
    ensures
        forall|v: i64| decimal_text(v as int) == s@ ==> r == Some(v),
{
    s.parse::<i64>().ok()
}

/// The characters of `s`, one by one.
pub fn chars_of(s: &str) -> (r: Vec<char>)
    ensures
        r@ == s@,
{
    let n = s.unicode_len();
    let mut r: Vec<char> = Vec::new();
    let mut i: usize = 0;
    while i < n
        invariant
            n == s@.len(),
            i <= n,
            r@ == s@.subrange(0, i as int),
        decreases n - i,
    {
        r.push(s.get_char(i));
        i += 1;
        assert(r@ =~= s@.subrange(0, i as int));
    }
    assert(r@ =~= s@);
    r
}

/// The characters `p[from..to]` as a string.
pub fn text_of(p: &Vec<char>, from: usize, to: usize) -> (r: String)
    requires
        from <= to <= p@.len(),
    ensures
        r@ == p@.subrange(from as int, to as int),
{
    let mut r = String::new();
    let mut i: usize = from;
    while i < to
        invariant
            from <= i <= to <= p@.len(),
            r@ == p@.subrange(from as int, i as int),
        decreases to - i,
    {
        push_char(&mut r, p[i]);
        i += 1;
        assert(r@ =~= p@.subrange(from as int, i as int));
    }
    r
}

/// Appends `t` to `s`.
pub fn append_text(s: &mut String, t: &str)
    ensures
        final(s)@ == old(s)@ + t@,
{
    s.append(t);
}

/// Whether `lit` stands in `p` at position `k`.
pub fn expect_lit(p: &Vec<char>, k: usize, lit: &str) -> (r: Option<usize>)
    requires
        k <= p@.len(),
    ensures
        r is Some <==> (k + lit@.len() <= p@.len() && p@.subrange(k as int, k + lit@.len()) == lit@),
        r matches Some(j) ==> j == k + lit@.len(),
{
    let n = lit.unicode_len();
    if n > p.len() - k {
        return None;
    }
    let mut i: usize = 0;
    while i < n
        invariant
            n == lit@.len(),
            k + n <= p.len(),
            i <= n,
            p@.subrange(k as int, k + i) == lit@.subrange(0, i as int),
        decreases n - i,
    {
        assert(k + i < p.len());
        if p[k + i] != lit.get_char(i) {
            assert(p@.subrange(k as int, k + n)[i as int] != lit@[i as int]);
            return None;
        }
        i += 1;
        assert(p@.subrange(k as int, k + i) =~= lit@.subrange(0, i as int));
    }
    assert(lit@.subrange(0, n as int) =~= lit@);
    Some(k + n)
}

/// Reads the decimal integer at position `k` of `p`, in the text that
/// `int_text` writes.
pub fn scan_int(p: &Vec<char>, k: usize) -> (r: Option<(i64, usize)>)
    requires
        k <= p@.len(),
    ensures
        r matches Some((v, j)) ==> k <= j <= p@.len() && p@.subrange(k as int, j as int)
            == decimal_text(v as int),
        forall|v: i64|
            #![trigger decimal_text(v as int)]
            k + decimal_text(v as int).len() < p@.len() && p@.subrange(
                k as int,
                k + decimal_text(v as int).len(),
            ) == decimal_text(v as int) && !is_digit(p@[k + decimal_text(v as int).len()])
                ==> r == Some((v, (k + decimal_text(v as int).len()) as usize)),
{
    let mut j: usize = k;
    if j < p.len() && p[j] == '-' {
        j += 1;
    }
    let ghost j0 = j;
    while j < p.len() && '0' <= p[j] && p[j] <= '9'
        invariant
            k <= j0 <= j <= p@.len(),
            j0 == k || (j0 == k + 1 && p@[k as int] == '-'),
            j0 == k ==> k == p@.len() || p@[k as int] != '-',
            forall|i: int| j0 <= i < j ==> is_digit(#[trigger] p@[i]),
        decreases p@.len() - j,
    {
        j += 1;
    }
    assert(j == p@.len() || !is_digit(p@[j as int]));
    let t = text_of(p, k, j);
    assert forall|v: i64|
        #![trigger decimal_text(v as int)]
        k + decimal_text(v as int).len() < p@.len() && p@.subrange(
            k as int,
            k + decimal_text(v as int).len(),
        ) == decimal_text(v as int) && !is_digit(p@[k + decimal_text(v as int).len()]) implies j
        == k + decimal_text(v as int).len() by {
        let d = decimal_text(v as int);
        let e = k + d.len();
        assert(p@[k as int] == p@.subrange(k as int, e)[0]);
        if v < 0 {
            lemma_natural_text_digits((-v) as nat);
            assert(d[0] == '-');
            assert forall|i: int| k < i < e implies is_digit(#[trigger] p@[i]) by {
                assert(p@[i] == p@.subrange(k as int, e)[i - k]);
                assert(d[i - k] == natural_text((-v) as nat)[i - k - 1]);
            }
            assert(j0 == k + 1);
        } else {
            lemma_natural_text_digits(v as nat);
            assert forall|i: int| k <= i < e implies is_digit(#[trigger] p@[i]) by {
                assert(p@[i] == p@.subrange(k as int, e)[i - k]);
            }
            assert(j0 == k);
        }
        if j < e {
            assert(is_digit(p@[j as int]));
        }
        if j > e {
            assert(is_digit(p@[e]));
        }
    }
    match parse_i64(t.as_str()) {
        Some(v) => {
            let back = int_text(v);
            if back == t {
                Some((v, j))
            } else {
                None
            }
        },
        None => None,
    }
}

} // verus!
