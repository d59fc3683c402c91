use vstd::prelude::*;
use crate::text::{hex_char, lemma_hex_char_injective, push_char};

verus! {

/// How one character is written inside a JSON string literal: quote and
/// backslash behind a backslash, control characters as `\u00XX`, the rest as is.
pub open spec fn escape_char(c: char) -> Seq<char> {
    if c == '"' {
        seq!['\\', '"']
    } else if c == '\\' {
        seq!['\\', '\\']
    } else if (c as u32) < 32 {
        seq!['\\', 'u', '0', '0', hex_char((c as u32 / 16) as nat), hex_char((c as u32 % 16) as nat)]
    } else {
        seq![c]
    }
}

/// The escaped body of a JSON string literal.
pub open spec fn escaped(s: Seq<char>) -> Seq<char>
    decreases s.len(),
{
    if s.len() == 0 {
        Seq::empty()
    } else {
        escape_char(s[0]) + escaped(s.skip(1))
    }
}

/// A JSON string literal holding `s`.
pub open spec fn json_string(s: Seq<char>) -> Seq<char> {
    seq!['"'] + escaped(s) + seq!['"']
}

pub proof fn lemma_escaped_push(s: Seq<char>, c: char)
    ensures
        escaped(s.push(c)) == escaped(s) + escape_char(c),
    decreases s.len(),
{
    if s.len() == 0 {
        assert(s.push(c).skip(1) =~= Seq::<char>::empty());
        assert(escaped(Seq::<char>::empty()) == Seq::<char>::empty());
        assert(s =~= Seq::<char>::empty());
        assert(s.push(c)[0] == c);
        assert(escaped(s.push(c)) =~= escape_char(c));
    } else {
        assert(s.push(c).skip(1) =~= s.skip(1).push(c));
        lemma_escaped_push(s.skip(1), c);
        assert(s.push(c)[0] == s[0]);
        assert(escaped(s.push(c)) =~= escaped(s) + escape_char(c));
    }
}

pub proof fn lemma_escaped_split(s: Seq<char>, m: int)
    requires
        0 <= m <= s.len(),
    ensures
        escaped(s) == escaped(s.take(m)) + escaped(s.skip(m)),
    decreases m,
{
    if m == 0 {
        assert(s.take(0) =~= Seq::<char>::empty());
        assert(s.skip(0) =~= s);
        assert(escaped(s) =~= escaped(s.take(m)) + escaped(s.skip(m)));
    } else {
        lemma_escaped_split(s.skip(1), m - 1);
        assert(s.skip(1).take(m - 1) =~= s.take(m).skip(1));
        assert(s.skip(1).skip(m - 1) =~= s.skip(m));
        assert(s.take(m)[0] == s[0]);
        assert(escaped(s) =~= escaped(s.take(m)) + escaped(s.skip(m)));
    }
}

pub proof fn lemma_escape_char_first(c: char)
    ensures
        escape_char(c).len() >= 1,
        escape_char(c)[0] != '"',
        escape_char(c)[0] == '\\' <==> (c == '"' || c == '\\' || (c as u32) < 32),
{
}

/// Escape codes are prefix-free: the code of one character never starts the
/// code of another.
pub proof fn lemma_escape_char_prefix(c1: char, c2: char, r1: Seq<char>, r2: Seq<char>)
    requires
        escape_char(c1) + r1 == escape_char(c2) + r2,
    ensures
        c1 == c2,
        r1 == r2,
{
    let e1 = escape_char(c1);
    let e2 = escape_char(c2);
    let s = e1 + r1;
    assert(s[0] == e1[0]);
    assert(s[0] == e2[0]);
    if e1.len() >= 2 && e2.len() >= 2 {
        assert(s[1] == e1[1]);
        assert(s[1] == e2[1]);
    }
    assert(e1.len() == e2.len());
    let l = e1.len() as int;
    assert(e1 =~= s.take(l));
    assert(e2 =~= (e2 + r2).take(l));
    assert(r1 =~= s.skip(l));
    assert(r2 =~= (e2 + r2).skip(l));
    if l == 6 {
        assert(e1[4] == e2[4]);
        assert(e1[5] == e2[5]);
        let v1 = c1 as u32;
        let v2 = c2 as u32;
        lemma_hex_char_injective((v1 / 16) as nat, (v2 / 16) as nat);
        lemma_hex_char_injective((v1 % 16) as nat, (v2 % 16) as nat);
        assert(v1 == v2);
        vstd::utf8::char_u32_cast(c1, v1);
        vstd::utf8::char_u32_cast(c2, v2);
    } else if l == 1 {
        assert(e1[0] == c1);
        assert(e2[0] == c2);
    }
}

/// A JSON string literal ends at its closing quote: two literals that stand at
/// the same place hold the same string.
pub proof fn lemma_escaped_prefix(a: Seq<char>, b: Seq<char>, x: Seq<char>, y: Seq<char>)
    requires
        escaped(a) + (seq!['"'] + x) == escaped(b) + (seq!['"'] + y),
    ensures
        a == b,
        x == y,
    decreases a.len(),
{
    let s = escaped(a) + (seq!['"'] + x);
    if a.len() == 0 {
        assert(escaped(a) =~= Seq::<char>::empty());
        assert(s[0] == '"');
        if b.len() > 0 {
            lemma_escape_char_first(b[0]);
            assert(escaped(b)[0] == escape_char(b[0])[0]);
            assert(s[0] == escaped(b)[0]);
        }
        assert(escaped(b) =~= Seq::<char>::empty());
        assert(a =~= b);
        assert(x =~= s.skip(1));
        assert(y =~= (escaped(b) + (seq!['"'] + y)).skip(1));
    } else if b.len() == 0 {
        assert(escaped(b) =~= Seq::<char>::empty());
        lemma_escape_char_first(a[0]);
        assert(escaped(a)[0] == escape_char(a[0])[0]);
        assert(s[0] == escaped(a)[0]);
    } else {
        let ra = escaped(a.skip(1)) + (seq!['"'] + x);
        let rb = escaped(b.skip(1)) + (seq!['"'] + y);
        assert(s =~= escape_char(a[0]) + ra);
        assert(escaped(b) + (seq!['"'] + y) =~= escape_char(b[0]) + rb);
        lemma_escape_char_prefix(a[0], b[0], ra, rb);
        lemma_escaped_prefix(a.skip(1), b.skip(1), x, y);
        assert(a =~= seq![a[0]] + a.skip(1));
        assert(b =~= seq![b[0]] + b.skip(1));
    }
}

pub proof fn lemma_json_string_prefix(a: Seq<char>, b: Seq<char>, x: Seq<char>, y: Seq<char>)
    requires
        json_string(a) + x == json_string(b) + y,
    ensures
        a == b,
        x == y,
{
    let s = json_string(a) + x;
    assert(s.skip(1) =~= escaped(a) + (seq!['"'] + x));
    assert((json_string(b) + y).skip(1) =~= escaped(b) + (seq!['"'] + y));
    lemma_escaped_prefix(a, b, x, y);
}

/// The hexadecimal digit for `d`.
pub fn hex_digit(d: u32) -> (r: char)
    requires
        d < 16,
    ensures
        r == hex_char(d as nat),
{
    if d == 0 { '0' }
    else if d == 1 { '1' }
    else if d == 2 { '2' }
    else if d == 3 { '3' }
    else if d == 4 { '4' }
    else if d == 5 { '5' }
    else if d == 6 { '6' }
    else if d == 7 { '7' }
    else if d == 8 { '8' }
    else if d == 9 { '9' }
    else if d == 10 { 'a' }
    else if d == 11 { 'b' }
    else if d == 12 { 'c' }
    else if d == 13 { 'd' }
    else if d == 14 { 'e' }
    else { 'f' }
}

/// The value of a lower-case hexadecimal digit.
pub fn hex_value(c: char) -> (r: Option<u32>)
    ensures
        r matches Some(d) ==> d < 16 && hex_char(d as nat) == c,
        forall|d: nat| d < 16 && hex_char(d) == c ==> r == Some(d as u32),
{
    if c == '0' { Some(0) }
    else if c == '1' { Some(1) }
    else if c == '2' { Some(2) }
    else if c == '3' { Some(3) }
    else if c == '4' { Some(4) }
    else if c == '5' { Some(5) }
    else if c == '6' { Some(6) }
    else if c == '7' { Some(7) }
    else if c == '8' { Some(8) }
    else if c == '9' { Some(9) }
    else if c == 'a' { Some(10) }
    else if c == 'b' { Some(11) }
    else if c == 'c' { Some(12) }
    else if c == 'd' { Some(13) }
    else if c == 'e' { Some(14) }
    else if c == 'f' { Some(15) }
    else { None }
}

/// Appends the escaped form of `c`.
fn push_escaped(out: &mut String, c: char)
    ensures
        final(out)@ == old(out)@ + escape_char(c),
{
    if c == '"' {
        push_char(out, '\\');
        push_char(out, '"');
    } else if c == '\\' {
        push_char(out, '\\');
        push_char(out, '\\');
    } else if (c as u32) < 32 {
        let v = c as u32;
        push_char(out, '\\');
        push_char(out, 'u');
        push_char(out, '0');
        push_char(out, '0');
        push_char(out, hex_digit(v / 16));
        push_char(out, hex_digit(v % 16));
    } else {
        push_char(out, c);
    }
    assert(final(out)@ =~= old(out)@ + escape_char(c));
}

/// `s` as a JSON string literal.
pub fn json_quote(s: &str) -> (r: String)
    ensures
        r@ == json_string(s@),
{
    let n = s.unicode_len();
    let mut out = String::new();
    push_char(&mut out, '"');
    let mut i: usize = 0;
    while i < n
        invariant
            n == s@.len(),
            i <= n,
            out@ == seq!['"'] + escaped(s@.take(i as int)),
        decreases n - i,
    {
        let c = s.get_char(i);
        proof {
            lemma_escaped_push(s@.take(i as int), c);
            assert(s@.take(i + 1) =~= s@.take(i as int).push(c));
        }
        push_escaped(&mut out, c);
        i += 1;
        assert(out@ =~= seq!['"'] + escaped(s@.take(i as int)));
    }
    push_char(&mut out, '"');
    assert(s@.take(n as int) =~= s@);
    assert(out@ =~= json_string(s@));
    out
}

/// Whether `json_string(t)` stands in `p` at position `k`.
pub open spec fn string_at(p: Seq<char>, k: int, t: Seq<char>) -> bool {
    k + json_string(t).len() <= p.len() && p.subrange(k, k + json_string(t).len()) == json_string(t)
}

/// Reads the JSON string literal, as `json_quote` writes it, at position `k` of `p`.
/// `target` names the string that a caller expects there; it has no effect on the result.
pub fn scan_string(p: &Vec<char>, k: usize, Ghost(target): Ghost<Seq<char>>) -> (r: Option<(String, usize)>)
    requires
        k <= p@.len(),
    ensures
        r matches Some((t, j)) ==> k <= j <= p@.len() && p@.subrange(k as int, j as int)
            == json_string(t@),
        string_at(p@, k as int, target) ==> (r matches Some((t, j)) && t@ == target && j == k
            + json_string(target).len()),
{
    let ghost full = string_at(p@, k as int, target);
    if k >= p.len() || p[k] != '"' {
        proof {
            if full {
                assert(p@[k as int] == p@.subrange(k as int, k + json_string(target).len())[0]);
            }
        }
        return None;
    }
    let mut out = String::new();
    let mut i: usize = k + 1;
    loop
        invariant
            k + 1 <= i <= p@.len(),
            p@[k as int] == '"',
            p@.subrange(k + 1, i as int) == escaped(out@),
            full == string_at(p@, k as int, target),
            full ==> out@.len() <= target.len() && out@ == target.take(out@.len() as int) && i
                == k + 1 + escaped(out@).len(),
        decreases p@.len() - i,
    {
        let ghost m = out@.len() as int;
        let ghost ec = if m < target.len() { escape_char(target[m]) } else { Seq::<char>::empty() };
        proof {
            if full {
                lemma_escaped_split(target, m);
                let js = json_string(target);
                let len = js.len();
                let pre = escaped(out@).len();
                assert(p@.subrange(k as int, k + len) == js);
                if m == target.len() {
                    assert(target.take(m) =~= target);
                    assert(target.skip(m) =~= Seq::<char>::empty());
                    assert(p@[i as int] == p@.subrange(k as int, k + len)[i - k]);
                    assert(js[i - k] == '"');
                } else {
                    assert(target.skip(m)[0] == target[m]);
                    assert(target.skip(m).skip(1) =~= target.skip(m + 1));
                    assert(escaped(target.skip(m)) == ec + escaped(target.skip(m + 1)));
                    assert(js =~= seq!['"'] + escaped(out@) + ec + escaped(target.skip(m + 1))
                        + seq!['"']);
                    assert forall|x: int| 0 <= x < ec.len() implies #[trigger] p@[i + x] == ec[x] by {
                        assert(p@[i + x] == p@.subrange(k as int, k + len)[i + x - k]);
                        assert(js[1 + pre + x] == ec[x]);
                    }
                    assert(i + ec.len() <= k + len);
                    let sub = p@.subrange(i as int, i + ec.len());
                    assert forall|x: int| 0 <= x < ec.len() implies #[trigger] sub[x] == ec[x] by {
                        assert(sub[x] == p@[i + x]);
                    }
                    assert(sub =~= ec);
                    lemma_escape_char_first(target[m]);
                }
            }
        }
        if i >= p.len() {
            proof {
                if full {
                    if m < target.len() {
                        assert(ec.len() >= 1);
                    }
                }
            }
            return None;
        }
        let c = p[i];
        if c == '"' {
            proof {
                if full && m < target.len() {
                    assert(p@[i as int] == ec[0]);
                }
                assert(p@.subrange(k as int, i + 1) =~= json_string(out@));
            }
            return Some((out, i + 1));
        } else if c == '\\' {
            if i + 1 >= p.len() {
                proof {
                    if full && m < target.len() {
                        assert(escaped(target.skip(m)).len() >= 2);
                    }
                }
                return None;
            }
            let e = p[i + 1];
            let ghost before = out@;
            let ch: char;
            let step: usize;
            if e == '"' {
                ch = '"';
                step = 2;
            } else if e == '\\' {
                ch = '\\';
                step = 2;
            } else if e == 'u' && p.len() - i > 5 && p[i + 2] == '0' && p[i + 3] == '0' && (p[i
                + 4] == '0' || p[i + 4] == '1') {
                match hex_value(p[i + 5]) {
                    Some(lo) => {
                        let hi: u32 = if p[i + 4] == '1' { 1 } else { 0 };
                        let v: u32 = hi * 16 + lo;
                        let b: u8 = v as u8;
                        ch = b as char;
                        assert(ch as u32 == v);
                        step = 6;
                    },
                    None => {
                        return None;
                    },
                }
            } else {
                return None;
            }
            proof {
                if full {
                    let tc = target[m];
                    assert(p@[i as int] == ec[0]);
                    assert(ec.len() >= 2);
                    assert(p@[i + 1] == ec[1]);
                    if tc != '"' && tc != '\\' {
                        assert((tc as u32) < 32);
                        assert(p@[i + 4] == ec[4]);
                        assert(p@[i + 5] == ec[5]);
                        vstd::utf8::char_u32_cast(tc, tc as u32);
                        vstd::utf8::char_u32_cast(ch, ch as u32);
                    }
                    assert(ch == tc);
                    assert(step == ec.len());
                }
            }
            assert(p@.subrange(i as int, i + step) == escape_char(ch));
            push_char(&mut out, ch);
            proof {
                lemma_escaped_push(before, ch);
                if full {
                    assert(target.take(m + 1) =~= before.push(ch));
                }
                assert(p@.subrange(k + 1, i + step) =~= p@.subrange(k + 1, i as int)
                    + p@.subrange(i as int, i + step));
            }
            i = i + step;
        } else if (c as u32) < 32 {
            return None;
        } else {
            let ghost before = out@;
            push_char(&mut out, c);
            proof {
                lemma_escaped_push(before, c);
                if full {
                    assert(p@[i as int] == ec[0]);
                    assert(c == target[m]);
                    assert(target.take(m + 1) =~= before.push(c));
                }
                assert(p@.subrange(k + 1, i + 1) =~= p@.subrange(k + 1, i as int) + seq![c]);
            }
            i = i + 1;
        }
    }
}

} // verus!
