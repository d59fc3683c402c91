use vstd::prelude::*;
use crate::ids::{id_text, scan_id};
use crate::json::{json_quote, json_string, lemma_json_string_prefix, scan_string, string_at};
use crate::text::{
    append_text, chars_of, decimal_text, expect_lit, int_text, is_digit, lemma_decimal_text_prefix,
    lemma_uuid_text_len, lemma_uuid_text_injective, scan_int, uuid_text,
};

verus! {

/// The claim set that a token carries.
#[derive(Debug, Clone, PartialEq, Eq)]
pub struct Claims {
    /// The subject: the id of the user.
    pub sub: u128,
    /// Expiry, in seconds since the Unix epoch.
    pub exp: i64,
    /// Issue time, in seconds since the Unix epoch.
    pub iat: i64,
    /// The token's own id.
    pub jti: u128,
    pub username: String,
    /// The user's roles, joined by commas.
    pub roles: String,
    pub admin: bool,
}

pub struct ClaimsView {
    pub sub: u128,
    pub exp: i64,
    pub iat: i64,
    pub jti: u128,
    pub username: Seq<char>,
    pub roles: Seq<char>,
    pub admin: bool,
}

impl View for Claims {
    type V = ClaimsView;

    open spec fn view(&self) -> ClaimsView {
        ClaimsView {
            sub: self.sub,
            exp: self.exp,
            iat: self.iat,
            jti: self.jti,
            username: self.username@,
            roles: self.roles@,
            admin: self.admin,
        }
    }
}

impl Claims {
    pub fn new(
        sub: u128,
        exp: i64,
        iat: i64,
        jti: u128,
        username: String,
        roles: String,
        admin: bool,
    ) -> (r: Claims)
        ensures
            r@ == (ClaimsView {
                sub,
                exp,
                iat,
                jti,
                username: username@,
                roles: roles@,
                admin,
            }),
    {
        Claims { sub, exp, iat, jti, username, roles, admin }
    }
}

pub open spec fn bool_text(b: bool) -> Seq<char> {
    if b {
        "true"@
    } else {
        "false"@
    }
}

/// The JSON object that a token's payload holds for `c`, with the members in
/// a fixed order and no white space.
pub open spec fn claims_json(c: ClaimsView) -> Seq<char> {
    "{\"sub\":\""@ + (uuid_text(c.sub) + ("\",\"exp\":"@ + (decimal_text(c.exp as int) + (
    ",\"iat\":"@ + (decimal_text(c.iat as int) + (",\"jti\":\""@ + (uuid_text(c.jti) + (
    "\",\"username\":"@ + (json_string(c.username) + (",\"roles\":"@ + (json_string(c.roles) + (
    ",\"admin\":"@ + (bool_text(c.admin) + "}"@)))))))))))))
}

/// The claims that a payload holds: those whose JSON object it is.
pub open spec fn payload_claims(p: Seq<char>) -> Option<ClaimsView> {
    if exists|c: ClaimsView| claims_json(c) == p {
        Some(choose|c: ClaimsView| claims_json(c) == p)
    } else {
        None
    }
}

proof fn lemma_peel(a: Seq<char>, x: Seq<char>, y: Seq<char>)
    requires
        a + x == a + y,
    ensures
        x == y,
{
    assert(x =~= (a + x).skip(a.len() as int));
    assert(y =~= (a + y).skip(a.len() as int));
}

proof fn lemma_peel_id(v: u128, w: u128, x: Seq<char>, y: Seq<char>)
    requires
        uuid_text(v) + x == uuid_text(w) + y,
    ensures
        v == w,
        x == y,
{
    lemma_uuid_text_len(v);
    lemma_uuid_text_len(w);
    assert(uuid_text(v) =~= (uuid_text(v) + x).take(36));
    assert(uuid_text(w) =~= (uuid_text(w) + y).take(36));
    lemma_uuid_text_injective(v, w);
    lemma_peel(uuid_text(v), x, y);
}

proof fn lemma_literals()
    ensures
        ",\"iat\":"@.len() > 0 && ",\"iat\":"@[0] == ',',
        ",\"jti\":\""@.len() > 0 && ",\"jti\":\""@[0] == ',',
        "true"@.len() == 4 && "true"@[0] == 't',
        "false"@.len() == 5 && "false"@[0] == 'f',
{
    reveal_strlit(",\"iat\":");
    reveal_strlit(",\"jti\":\"");
    reveal_strlit("true");
    reveal_strlit("false");
}

/// Different claims have different payloads.
pub proof fn lemma_claims_json_injective(c1: ClaimsView, c2: ClaimsView)
    requires
        claims_json(c1) == claims_json(c2),
    ensures
        c1 == c2,
{
    lemma_literals();
    let t13a = bool_text(c1.admin) + "}"@;
    let t13b = bool_text(c2.admin) + "}"@;
    let t11a = json_string(c1.roles) + (",\"admin\":"@ + t13a);
    let t11b = json_string(c2.roles) + (",\"admin\":"@ + t13b);
    let t9a = json_string(c1.username) + (",\"roles\":"@ + t11a);
    let t9b = json_string(c2.username) + (",\"roles\":"@ + t11b);
    let t7a = uuid_text(c1.jti) + ("\",\"username\":"@ + t9a);
    let t7b = uuid_text(c2.jti) + ("\",\"username\":"@ + t9b);
    let t5a = decimal_text(c1.iat as int) + (",\"jti\":\""@ + t7a);
    let t5b = decimal_text(c2.iat as int) + (",\"jti\":\""@ + t7b);
    let t3a = decimal_text(c1.exp as int) + (",\"iat\":"@ + t5a);
    let t3b = decimal_text(c2.exp as int) + (",\"iat\":"@ + t5b);
    let t1a = uuid_text(c1.sub) + ("\",\"exp\":"@ + t3a);
    let t1b = uuid_text(c2.sub) + ("\",\"exp\":"@ + t3b);
    lemma_peel("{\"sub\":\""@, t1a, t1b);
    lemma_peel_id(c1.sub, c2.sub, "\",\"exp\":"@ + t3a, "\",\"exp\":"@ + t3b);
    lemma_peel("\",\"exp\":"@, t3a, t3b);
    assert(!is_digit((",\"iat\":"@ + t5a)[0]));
    assert(!is_digit((",\"iat\":"@ + t5b)[0]));
    lemma_decimal_text_prefix(c1.exp as int, c2.exp as int, ",\"iat\":"@ + t5a, ",\"iat\":"@ + t5b);
    lemma_peel(",\"iat\":"@, t5a, t5b);
    assert(!is_digit((",\"jti\":\""@ + t7a)[0]));
    assert(!is_digit((",\"jti\":\""@ + t7b)[0]));
    lemma_decimal_text_prefix(
        c1.iat as int,
        c2.iat as int,
        ",\"jti\":\""@ + t7a,
        ",\"jti\":\""@ + t7b,
    );
    lemma_peel(",\"jti\":\""@, t7a, t7b);
    lemma_peel_id(c1.jti, c2.jti, "\",\"username\":"@ + t9a, "\",\"username\":"@ + t9b);
    lemma_peel("\",\"username\":"@, t9a, t9b);
    lemma_json_string_prefix(c1.username, c2.username, ",\"roles\":"@ + t11a, ",\"roles\":"@ + t11b);
    lemma_peel(",\"roles\":"@, t11a, t11b);
    lemma_json_string_prefix(c1.roles, c2.roles, ",\"admin\":"@ + t13a, ",\"admin\":"@ + t13b);
    lemma_peel(",\"admin\":"@, t13a, t13b);
    assert(t13a[0] == bool_text(c1.admin)[0]);
    assert(t13b[0] == bool_text(c2.admin)[0]);
}

/// The claims of a payload written by `claims_payload` are the claims it was written from.
pub proof fn lemma_payload_claims_of_json(c: ClaimsView)
    ensures
        payload_claims(claims_json(c)) == Some(c),
{
    let p = claims_json(c);
    assert(exists|d: ClaimsView| claims_json(d) == p);
    let d = choose|d: ClaimsView| claims_json(d) == p;
    lemma_claims_json_injective(c, d);
}

/// `lit` followed by `t`.
fn joined(lit: &str, t: &String) -> (r: String)
    ensures
        r@ == lit@ + t@,
{
    let mut s = String::new();
    append_text(&mut s, lit);
    append_text(&mut s, t.as_str());
    assert(s@ =~= lit@ + t@);
    s
}

/// The payload text for `c`.
pub fn claims_payload(c: &Claims) -> (r: String)
    ensures
        r@ == claims_json(c@),
{
    let close = joined("}", &String::new());
    assert(close@ =~= "}"@);
    let admin = if c.admin {
        joined("true", &close)
    } else {
        joined("false", &close)
    };
    let t = joined(",\"admin\":", &admin);
    let t = joined(json_quote(c.roles.as_str()).as_str(), &t);
    let t = joined(",\"roles\":", &t);
    let t = joined(json_quote(c.username.as_str()).as_str(), &t);
    let t = joined("\",\"username\":", &t);
    let t = joined(id_text(c.jti).as_str(), &t);
    let t = joined(",\"jti\":\"", &t);
    let t = joined(int_text(c.iat).as_str(), &t);
    let t = joined(",\"iat\":", &t);
    let t = joined(int_text(c.exp).as_str(), &t);
    let t = joined("\",\"exp\":", &t);
    let t = joined(id_text(c.sub).as_str(), &t);
    joined("{\"sub\":\"", &t)
}

/// `p[k..]` is `a` followed by `b`.
proof fn lemma_split_at(p: Seq<char>, k: int, a: Seq<char>, b: Seq<char>)
    requires
        0 <= k <= p.len(),
        p.skip(k) == a + b,
    ensures
        k + a.len() <= p.len(),
        p.subrange(k, k + a.len()) == a,
        p.skip(k + a.len()) == b,
{
    assert(p.skip(k).len() == p.len() - k);
    assert((a + b).len() == a.len() + b.len());
    assert(k + a.len() <= p.len());
    assert forall|i: int| 0 <= i < a.len() implies #[trigger] p.subrange(k, k + a.len())[i] == a[i] by {
        assert(p.subrange(k, k + a.len())[i] == p.skip(k)[i]);
        assert((a + b)[i] == a[i]);
    }
    assert(p.subrange(k, k + a.len()) =~= a);
    assert forall|i: int| 0 <= i < b.len() implies #[trigger] p.skip(k + a.len())[i] == b[i] by {
        assert(p.skip(k + a.len())[i] == p.skip(k)[a.len() + i]);
        assert((a + b)[a.len() + i] == b[i]);
    }
    assert(p.skip(k + a.len()) =~= b);
}

/// Reads `true` or `false` at position `k` of `p`.
fn scan_bool(p: &Vec<char>, k: usize) -> (r: Option<(bool, usize)>)
    requires
        k <= p@.len(),
    ensures
        r matches Some((b, j)) ==> k <= j <= p@.len() && p@.subrange(k as int, j as int)
            == bool_text(b),
        forall|b: bool|
            #![trigger bool_text(b)]
            k + bool_text(b).len() <= p@.len() && p@.subrange(k as int, k + bool_text(b).len())
                == bool_text(b) ==> r == Some((b, (k + bool_text(b).len()) as usize)),
{
    proof {
        lemma_literals();
    }
    if k < p.len() && p[k] == 't' {
        match expect_lit(p, k, "true") {
            Some(j) => Some((true, j)),
            None => None,
        }
    } else {
        proof {
            if k + 4 <= p@.len() && p@.subrange(k as int, k + 4) == bool_text(true) {
                assert(p@[k as int] == p@.subrange(k as int, k + 4)[0]);
            }
        }
        match expect_lit(p, k, "false") {
            Some(j) => Some((false, j)),
            None => None,
        }
    }
}

/// Reads `lit` and then an identifier at position `k`.
fn step_id(p: &Vec<char>, k: usize, lit: &str, Ghost(v0): Ghost<u128>, Ghost(rest): Ghost<Seq<char>>) -> (r: Option<(u128, usize)>)
    requires
        k <= p@.len(),
    ensures
        r matches Some((v, j)) ==> k <= j <= p@.len() && p@.skip(k as int) == lit@ + (uuid_text(v)
            + p@.skip(j as int)),
        p@.skip(k as int) == lit@ + (uuid_text(v0) + rest) ==> (r matches Some((v, j)) && v == v0
            && p@.skip(j as int) == rest),
{
    let ghost full = p@.skip(k as int) == lit@ + (uuid_text(v0) + rest);
    proof {
        if full {
            lemma_split_at(p@, k as int, lit@, uuid_text(v0) + rest);
        }
    }
    let j1 = match expect_lit(p, k, lit) {
        Some(j) => j,
        None => return None,
    };
    proof {
        if full {
            lemma_uuid_text_len(v0);
            lemma_split_at(p@, j1 as int, uuid_text(v0), rest);
        }
    }
    let (v, j) = match scan_id(p, j1) {
        Some(x) => x,
        None => return None,
    };
    proof {
        assert(p@.skip(k as int) =~= p@.subrange(k as int, j1 as int) + (p@.subrange(j1 as int, j as int)
            + p@.skip(j as int)));
    }
    Some((v, j))
}

/// Reads `lit` and then a decimal integer at position `k`.
fn step_int(p: &Vec<char>, k: usize, lit: &str, Ghost(v0): Ghost<i64>, Ghost(rest): Ghost<Seq<char>>) -> (r: Option<(i64, usize)>)
    requires
        k <= p@.len(),
    ensures
        r matches Some((v, j)) ==> k <= j <= p@.len() && p@.skip(k as int) == lit@ + (decimal_text(
            v as int,
        ) + p@.skip(j as int)),
        p@.skip(k as int) == lit@ + (decimal_text(v0 as int) + rest) && rest.len() > 0 && !is_digit(
            rest[0],
        ) ==> (r matches Some((v, j)) && v == v0 && p@.skip(j as int) == rest),
{
    let ghost full = p@.skip(k as int) == lit@ + (decimal_text(v0 as int) + rest) && rest.len() > 0
        && !is_digit(rest[0]);
    proof {
        if full {
            lemma_split_at(p@, k as int, lit@, decimal_text(v0 as int) + rest);
        }
    }
    let j1 = match expect_lit(p, k, lit) {
        Some(j) => j,
        None => return None,
    };
    proof {
        if full {
            lemma_split_at(p@, j1 as int, decimal_text(v0 as int), rest);
            let e = j1 + decimal_text(v0 as int).len();
            assert(p@[e] == p@.skip(e)[0]);
        }
    }
    let (v, j) = match scan_int(p, j1) {
        Some(x) => x,
        None => return None,
    };
    proof {
        assert(p@.skip(k as int) =~= p@.subrange(k as int, j1 as int) + (p@.subrange(j1 as int, j as int)
            + p@.skip(j as int)));
    }
    Some((v, j))
}

/// Reads `lit` and then a JSON string literal at position `k`.
fn step_str(p: &Vec<char>, k: usize, lit: &str, Ghost(v0): Ghost<Seq<char>>, Ghost(rest): Ghost<Seq<char>>) -> (r: Option<(String, usize)>)
    requires
        k <= p@.len(),
    ensures
        r matches Some((v, j)) ==> k <= j <= p@.len() && p@.skip(k as int) == lit@ + (json_string(
            v@,
        ) + p@.skip(j as int)),
        p@.skip(k as int) == lit@ + (json_string(v0) + rest) ==> (r matches Some((v, j)) && v@
            == v0 && p@.skip(j as int) == rest),
{
    let ghost full = p@.skip(k as int) == lit@ + (json_string(v0) + rest);
    proof {
        if full {
            lemma_split_at(p@, k as int, lit@, json_string(v0) + rest);
        }
    }
    let j1 = match expect_lit(p, k, lit) {
        Some(j) => j,
        None => return None,
    };
    proof {
        if full {
            lemma_split_at(p@, j1 as int, json_string(v0), rest);
            assert(string_at(p@, j1 as int, v0));
        }
    }
    let (v, j) = match scan_string(p, j1, Ghost(v0)) {
        Some(x) => x,
        None => return None,
    };
    proof {
        assert(p@.skip(k as int) =~= p@.subrange(k as int, j1 as int) + (p@.subrange(j1 as int, j as int)
            + p@.skip(j as int)));
    }
    Some((v, j))
}

/// Reads `lit` and then `true` or `false` at position `k`.
fn step_bool(p: &Vec<char>, k: usize, lit: &str, Ghost(v0): Ghost<bool>, Ghost(rest): Ghost<Seq<char>>) -> (r: Option<(bool, usize)>)
    requires
        k <= p@.len(),
    ensures
        r matches Some((v, j)) ==> k <= j <= p@.len() && p@.skip(k as int) == lit@ + (bool_text(v)
            + p@.skip(j as int)),
        p@.skip(k as int) == lit@ + (bool_text(v0) + rest) ==> (r matches Some((v, j)) && v == v0
            && p@.skip(j as int) == rest),
{
    let ghost full = p@.skip(k as int) == lit@ + (bool_text(v0) + rest);
    proof {
        if full {
            lemma_split_at(p@, k as int, lit@, bool_text(v0) + rest);
        }
    }
    let j1 = match expect_lit(p, k, lit) {
        Some(j) => j,
        None => return None,
    };
    proof {
        if full {
            lemma_split_at(p@, j1 as int, bool_text(v0), rest);
        }
    }
    let (v, j) = match scan_bool(p, j1) {
        Some(x) => x,
        None => return None,
    };
    proof {
        assert(p@.skip(k as int) =~= p@.subrange(k as int, j1 as int) + (p@.subrange(j1 as int, j as int)
            + p@.skip(j as int)));
    }
    Some((v, j))
}

/// Parses a payload, reading its strings in the light of `target`.
fn parse_claims_for(p: &Vec<char>, Ghost(target): Ghost<ClaimsView>) -> (r: Option<Claims>)
    ensures
        r matches Some(c) ==> claims_json(c@) == p@,
        claims_json(target) == p@ ==> (r matches Some(c) && c@ == target),
{
    let ghost full = claims_json(target) == p@;
    let ghost c = target;
    proof {
        lemma_literals();
        assert(p@.skip(0) =~= p@);
    }
    let ghost t7 = bool_text(c.admin) + "}"@;
    let ghost t6 = json_string(c.roles) + (",\"admin\":"@ + t7);
    let ghost t5 = json_string(c.username) + (",\"roles\":"@ + t6);
    let ghost t4 = uuid_text(c.jti) + ("\",\"username\":"@ + t5);
    let ghost t3 = decimal_text(c.iat as int) + (",\"jti\":\""@ + t4);
    let ghost t2 = decimal_text(c.exp as int) + (",\"iat\":"@ + t3);
    let ghost t1 = uuid_text(c.sub) + ("\",\"exp\":"@ + t2);
    let (sub, k1) = match step_id(p, 0, "{\"sub\":\"", Ghost(c.sub), Ghost("\",\"exp\":"@ + t2)) {
        Some(x) => x,
        None => return None,
    };
    let (exp, k2) = match step_int(p, k1, "\",\"exp\":", Ghost(c.exp), Ghost(",\"iat\":"@ + t3)) {
        Some(x) => x,
        None => return None,
    };
    let (iat, k3) = match step_int(p, k2, ",\"iat\":", Ghost(c.iat), Ghost(",\"jti\":\""@ + t4)) {
        Some(x) => x,
        None => return None,
    };
    let (jti, k4) = match step_id(p, k3, ",\"jti\":\"", Ghost(c.jti), Ghost("\",\"username\":"@ + t5)) {
        Some(x) => x,
        None => return None,
    };
    let (username, k5) = match step_str(p, k4, "\",\"username\":", Ghost(c.username), Ghost(",\"roles\":"@ + t6)) {
        Some(x) => x,
        None => return None,
    };
    let (roles, k6) = match step_str(p, k5, ",\"roles\":", Ghost(c.roles), Ghost(",\"admin\":"@ + t7)) {
        Some(x) => x,
        None => return None,
    };
    let (admin, k7) = match step_bool(p, k6, ",\"admin\":", Ghost(c.admin), Ghost("}"@)) {
        Some(x) => x,
        None => return None,
    };
    let k8 = match expect_lit(p, k7, "}") {
        Some(j) => j,
        None => {
            proof {
                if full {
                    assert(p@.subrange(k7 as int, k7 + "}"@.len()) =~= p@.skip(k7 as int));
                }
            }
            return None;
        },
    };
    if k8 != p.len() {
        proof {
            if full {
                assert(p@.skip(k7 as int).len() == "}"@.len());
            }
        }
        return None;
    }
    let claims = Claims { sub, exp, iat, jti, username, roles, admin };
    proof {
        assert(p@.skip(k7 as int) =~= p@.subrange(k7 as int, k8 as int));
        if full {
            lemma_claims_json_injective(claims@, target);
        }
    }
    Some(claims)
}

/// The claims that a payload holds, if it is the payload of some claims.
pub fn claims_from_payload(payload: &str) -> (r: Option<Claims>)
    ensures
        match r {
            Some(c) => payload_claims(payload@) == Some(c@),
            None => payload_claims(payload@) is None,
        },
{
    let p = chars_of(payload);
    let ghost target = payload_claims(payload@)->0;
    let r = parse_claims_for(&p, Ghost(target));
    proof {
        if r is Some {
            lemma_payload_claims_of_json(r->0@);
        }
    }
    r
}

} // verus!
