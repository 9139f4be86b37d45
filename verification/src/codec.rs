use vstd::prelude::*;
use crate::messages::Address;
use crate::messages::PingResponse;
use crate::messages::RegisterResponse;
use crate::messages::ServiceList;
use crate::messages::ServiceListModel;
use crate::messages::Session;

verus! {

// ---------------------------------------------------------------------
// Canonical wire text, at the spec level. Every message the client sends
// or receives is structured text over these forms; the exec encoders and
// decoders below are proved against them.
// ---------------------------------------------------------------------

/// How one character is written inside a quoted string: the quote and the
/// backslash are escaped, every other character stands for itself.
pub open spec fn escaped_char(c: char) -> Seq<char> {
    if c == '"' {
        seq!['\\', '"']
    } else if c == '\\' {
        seq!['\\', '\\']
    } else {
        seq![c]
    }
}

/// Escaped body of a quoted string.
pub open spec fn escaped(s: Seq<char>) -> Seq<char>
    decreases s.len(),
{
    if s.len() == 0 {
        Seq::<char>::empty()
    } else {
        escaped_char(s[0]) + escaped(s.skip(1))
    }
}

/// A string value on the wire: escaped body between double quotes.
pub open spec fn quoted(s: Seq<char>) -> Seq<char> {
    seq!['"'] + escaped(s) + seq!['"']
}

/// Comma-separated string values, as they stand inside a list.
pub open spec fn list_items_text(l: Seq<Seq<char>>) -> Seq<char>
    decreases l.len(),
{
    if l.len() == 0 {
        Seq::<char>::empty()
    } else if l.len() == 1 {
        quoted(l[0])
    } else {
        quoted(l[0]) + seq![','] + list_items_text(l.skip(1))
    }
}

/// A list of string values on the wire.
pub open spec fn list_text(l: Seq<Seq<char>>) -> Seq<char> {
    seq!['['] + list_items_text(l) + seq![']']
}

/// The peer-set body: `{"trusted":[...],"untrusted":[...]}`.
pub open spec fn service_list_text(v: ServiceListModel) -> Seq<char> {
    "{\"trusted\":"@ + list_text(v.trusted) + ",\"untrusted\":"@ + list_text(v.untrusted) + "}"@
}

/// The registration request body: `{"address":"..."}`.
pub open spec fn address_text(a: Seq<char>) -> Seq<char> {
    "{\"address\":"@ + quoted(a) + "}"@
}

// ---------------------------------------------------------------------
// The grammar, as a spec-level parser. Each function consumes a prefix
// of the input and yields the parsed value with the unread remainder.
// ---------------------------------------------------------------------

/// Remainder of `s` after a required literal, or `None` where the
/// literal is not a prefix of `s`.
pub open spec fn after_lit(s: Seq<char>, lit: Seq<char>) -> Option<Seq<char>> {
    if lit.is_prefix_of(s) {
        Some(s.skip(lit.len() as int))
    } else {
        None
    }
}

/// Parses the body of a quoted string up to and over its closing quote,
/// undoing the escapes of `escaped_char`.
pub open spec fn parse_quoted_body(s: Seq<char>) -> Option<(Seq<char>, Seq<char>)>
    decreases s.len(),
{
    if s.len() == 0 {
        None
    } else if s[0] == '"' {
        Some((Seq::<char>::empty(), s.skip(1)))
    } else if s[0] == '\\' {
        if s.len() >= 2 && (s[1] == '"' || s[1] == '\\') {
            match parse_quoted_body(s.skip(2)) {
                Some(p) => Some((seq![s[1]] + p.0, p.1)),
                None => None,
            }
        } else {
            None
        }
    } else {
        match parse_quoted_body(s.skip(1)) {
            Some(p) => Some((seq![s[0]] + p.0, p.1)),
            None => None,
        }
    }
}

/// Parses one quoted string value.
pub open spec fn parse_quoted(s: Seq<char>) -> Option<(Seq<char>, Seq<char>)> {
    if s.len() > 0 && s[0] == '"' {
        parse_quoted_body(s.skip(1))
    } else {
        None
    }
}

proof fn lemma_parse_quoted_body_shrinks(s: Seq<char>)
    ensures
        parse_quoted_body(s) matches Some(p) ==> p.1.len() < s.len(),
    decreases s.len(),
{
    if s.len() == 0 {
    } else if s[0] == '"' {
    } else if s[0] == '\\' {
        if s.len() >= 2 && (s[1] == '"' || s[1] == '\\') {
            lemma_parse_quoted_body_shrinks(s.skip(2));
        }
    } else {
        lemma_parse_quoted_body_shrinks(s.skip(1));
    }
}

proof fn lemma_parse_quoted_shrinks(s: Seq<char>)
    ensures
        parse_quoted(s) matches Some(p) ==> p.1.len() < s.len(),
{
    if s.len() > 0 && s[0] == '"' {
        lemma_parse_quoted_body_shrinks(s.skip(1));
    }
}

/// Parses one or more comma-separated string values up to and over the
/// closing bracket of the surrounding list.
pub open spec fn parse_items(s: Seq<char>) -> Option<(Seq<Seq<char>>, Seq<char>)>
    decreases s.len(),
        via parse_items_dec
{
    match parse_quoted(s) {
        None => None,
        Some(p) => {
            if p.1.len() > 0 && p.1[0] == ',' {
                match parse_items(p.1.skip(1)) {
                    Some(q) => Some((seq![p.0] + q.0, q.1)),
                    None => None,
                }
            } else if p.1.len() > 0 && p.1[0] == ']' {
                Some((seq![p.0], p.1.skip(1)))
            } else {
                None
            }
        },
    }
}

#[via_fn]
proof fn parse_items_dec(s: Seq<char>) {
    lemma_parse_quoted_shrinks(s);
}

/// Parses a list of string values, brackets included.
pub open spec fn parse_list(s: Seq<char>) -> Option<(Seq<Seq<char>>, Seq<char>)> {
    if s.len() > 0 && s[0] == '[' {
        if s.skip(1).len() > 0 && s.skip(1)[0] == ']' {
            Some((Seq::<Seq<char>>::empty(), s.skip(1).skip(1)))
        } else {
            parse_items(s.skip(1))
        }
    } else {
        None
    }
}

/// Parses a whole peer-set body; the input must be consumed exactly.
pub open spec fn parse_service_list(s: Seq<char>) -> Option<ServiceListModel> {
    match after_lit(s, "{\"trusted\":"@) {
        None => None,
        Some(r1) => match parse_list(r1) {
            None => None,
            Some(p1) => match after_lit(p1.1, ",\"untrusted\":"@) {
                None => None,
                Some(r2) => match parse_list(r2) {
                    None => None,
                    Some(p2) => match after_lit(p2.1, "}"@) {
                        None => None,
                        Some(r3) => if r3.len() == 0 {
                            Some(ServiceListModel { trusted: p1.0, untrusted: p2.0 })
                        } else {
                            None
                        },
                    },
                },
            },
        },
    }
}

/// Parses a heartbeat acknowledgement body.
pub open spec fn parse_ping(s: Seq<char>) -> Option<bool> {
    if s == "{\"ack\":true}"@ {
        Some(true)
    } else if s == "{\"ack\":false}"@ {
        Some(false)
    } else {
        None
    }
}

/// Parses a registration outcome body: either no session (the field
/// null or absent), or a session object carrying the lease token.
pub open spec fn parse_register(s: Seq<char>) -> Option<Option<Seq<char>>> {
    if s == "{\"session\":null}"@ || s == "{}"@ {
        Some(None)
    } else {
        match after_lit(s, "{\"session\":{\"token\":"@) {
            None => None,
            Some(r) => match parse_quoted(r) {
                None => None,
                Some(p) => if p.1 == "}}"@ {
                    Some(Some(p.0))
                } else {
                    None
                },
            },
        }
    }
}

// ---------------------------------------------------------------------
// The round-trip law: parsing the canonical text of a value yields the
// value back.
// ---------------------------------------------------------------------

proof fn lemma_after_lit_roundtrip(lit: Seq<char>, rest: Seq<char>)
    ensures
        after_lit(lit + rest, lit) == Some(rest),
{
    assert((lit + rest).subrange(0, lit.len() as int) =~= lit);
    assert((lit + rest).skip(lit.len() as int) =~= rest);
}

proof fn lemma_escaped_roundtrip(s: Seq<char>, rest: Seq<char>)
    ensures
        parse_quoted_body(escaped(s) + seq!['"'] + rest) == Some((s, rest)),
    decreases s.len(),
{
    let t = escaped(s) + seq!['"'] + rest;
    if s.len() == 0 {
        assert(t =~= seq!['"'] + rest);
        assert(t[0] == '"');
        assert(t.skip(1) =~= rest);
    } else {
        let c = s[0];
        let tail = s.skip(1);
        lemma_escaped_roundtrip(tail, rest);
        if c == '"' || c == '\\' {
            assert(t =~= seq!['\\', c] + (escaped(tail) + seq!['"'] + rest));
            assert(t[0] == '\\');
            assert(t[1] == c);
            assert(t.len() >= 2);
            assert(t.skip(2) =~= escaped(tail) + seq!['"'] + rest);
            assert(seq![c] + tail =~= s);
        } else {
            assert(t =~= seq![c] + (escaped(tail) + seq!['"'] + rest));
            assert(t[0] == c);
            assert(t.skip(1) =~= escaped(tail) + seq!['"'] + rest);
            assert(seq![c] + tail =~= s);
        }
    }
}

proof fn lemma_quoted_roundtrip(s: Seq<char>, rest: Seq<char>)
    ensures
        parse_quoted(quoted(s) + rest) == Some((s, rest)),
{
    let t = quoted(s) + rest;
    assert(t[0] == '"');
    assert(t.skip(1) =~= escaped(s) + seq!['"'] + rest);
    lemma_escaped_roundtrip(s, rest);
}

proof fn lemma_items_roundtrip(l: Seq<Seq<char>>, rest: Seq<char>)
    requires
        l.len() >= 1,
    ensures
        parse_items(list_items_text(l) + seq![']'] + rest) == Some((l, rest)),
    decreases l.len(),
{
    let t = list_items_text(l) + seq![']'] + rest;
    if l.len() == 1 {
        let r = seq![']'] + rest;
        assert(t =~= quoted(l[0]) + r);
        lemma_quoted_roundtrip(l[0], r);
        assert(r[0] == ']');
        assert(r.skip(1) =~= rest);
        assert(seq![l[0]] =~= l);
    } else {
        let r = seq![','] + (list_items_text(l.skip(1)) + seq![']'] + rest);
        assert(t =~= quoted(l[0]) + r);
        lemma_quoted_roundtrip(l[0], r);
        assert(r[0] == ',');
        assert(r.skip(1) =~= list_items_text(l.skip(1)) + seq![']'] + rest);
        lemma_items_roundtrip(l.skip(1), rest);
        assert(seq![l[0]] + l.skip(1) =~= l);
    }
}

proof fn lemma_list_roundtrip(l: Seq<Seq<char>>, rest: Seq<char>)
    ensures
        parse_list(list_text(l) + rest) == Some((l, rest)),
{
    let t = list_text(l) + rest;
    assert(t[0] == '[');
    if l.len() == 0 {
        assert(t.skip(1) =~= seq![']'] + rest);
        assert(t.skip(1)[0] == ']');
        assert(t.skip(1).skip(1) =~= rest);
    } else {
        assert(t.skip(1) =~= list_items_text(l) + (seq![']'] + rest));
        assert(list_items_text(l)[0] == '"');
        assert(t.skip(1)[0] == '"');
        assert(t.skip(1) =~= list_items_text(l) + seq![']'] + rest);
        lemma_items_roundtrip(l, rest);
    }
}

/// Round-trip law: decoding the canonical encoding of any peer set
/// yields an equal peer set.
pub proof fn lemma_service_list_roundtrip(v: ServiceListModel)
    ensures
        parse_service_list(service_list_text(v)) == Some(v),
{
    let lit1 = "{\"trusted\":"@;
    let lit2 = ",\"untrusted\":"@;
    let lit3 = "}"@;
    let t = service_list_text(v);
    let rest1 = list_text(v.trusted) + lit2 + list_text(v.untrusted) + lit3;
    assert(t =~= lit1 + rest1);
    lemma_after_lit_roundtrip(lit1, rest1);
    let rest2 = lit2 + list_text(v.untrusted) + lit3;
    assert(rest1 =~= list_text(v.trusted) + rest2);
    lemma_list_roundtrip(v.trusted, rest2);
    let rest3 = list_text(v.untrusted) + lit3;
    assert(rest2 =~= lit2 + rest3);
    lemma_after_lit_roundtrip(lit2, rest3);
    lemma_list_roundtrip(v.untrusted, lit3);
    assert(lit3 =~= lit3 + Seq::<char>::empty());
    lemma_after_lit_roundtrip(lit3, Seq::<char>::empty());
    assert(parse_service_list(t) == Some(ServiceListModel { trusted: v.trusted, untrusted: v.untrusted }));
    assert(ServiceListModel { trusted: v.trusted, untrusted: v.untrusted } == v);
}

// ---------------------------------------------------------------------
// Exec encoders.
// ---------------------------------------------------------------------

fn push_escaped(out: &mut String, s: &str, i: usize)
    requires
        i <= old(out)@.len() + s@.len(),
        i <= s@.len(),
    ensures
        final(out)@ == old(out)@ + escaped(s@.skip(i as int)),
    decreases s@.len() - i,
{
    let ghost out0 = out@;
    let n = s.unicode_len();
    if i == n {
        proof {
            assert(s@.skip(i as int) =~= Seq::<char>::empty());
            assert(out@ =~= out0 + escaped(s@.skip(i as int)));
        }
        return;
    }
    let c = s.get_char(i);
    if c == '"' {
        out.append("\\\"");
        proof {
            reveal_strlit("\\\"");
            assert(out@ =~= out0 + escaped_char(s@[i as int]));
        }
    } else if c == '\\' {
        out.append("\\\\");
        proof {
            reveal_strlit("\\\\");
            assert(out@ =~= out0 + escaped_char(s@[i as int]));
        }
    } else {
        let piece = s.substring_char(i, i + 1);
        out.append(piece);
        proof {
            assert(s@.subrange(i as int, i + 1 as int) =~= seq![s@[i as int]]);
            assert(out@ =~= out0 + escaped_char(s@[i as int]));
        }
    }
    push_escaped(out, s, i + 1);
    proof {
        assert(s@.skip(i as int)[0] == s@[i as int]);
        assert(s@.skip(i as int).skip(1) =~= s@.skip(i + 1 as int));
        assert(out@ =~= out0 + escaped(s@.skip(i as int)));
    }
}

fn push_quoted(out: &mut String, s: &str)
    ensures
        final(out)@ == old(out)@ + quoted(s@),
{
    let ghost out0 = out@;
    out.append("\"");
    proof {
        reveal_strlit("\"");
    }
    push_escaped(out, s, 0);
    out.append("\"");
    proof {
        assert(s@.skip(0) =~= s@);
        assert(out@ =~= out0 + quoted(s@));
    }
}

fn push_list_items(out: &mut String, l: &Vec<String>, i: usize)
    requires
        i <= l@.len(),
    ensures
        final(out)@ == old(out)@ + list_items_text(l.deep_view().skip(i as int)),
    decreases l@.len() - i,
{
    let ghost out0 = out@;
    if i == l.len() {
        proof {
            assert(l.deep_view().skip(i as int) =~= Seq::<Seq<char>>::empty());
            assert(out@ =~= out0 + list_items_text(l.deep_view().skip(i as int)));
        }
        return;
    }
    push_quoted(out, l[i].as_str());
    proof {
        assert(l.deep_view()[i as int] == l@[i as int]@);
    }
    if i + 1 == l.len() {
        proof {
            assert(l.deep_view().skip(i as int).len() == 1);
            assert(l.deep_view().skip(i as int)[0] == l.deep_view()[i as int]);
            assert(out@ =~= out0 + list_items_text(l.deep_view().skip(i as int)));
        }
        return;
    }
    out.append(",");
    proof {
        reveal_strlit(",");
    }
    push_list_items(out, l, i + 1);
    proof {
        assert(l.deep_view().skip(i as int)[0] == l.deep_view()[i as int]);
        assert(l.deep_view().skip(i as int).skip(1) =~= l.deep_view().skip(i + 1 as int));
        assert(out@ =~= out0 + list_items_text(l.deep_view().skip(i as int)));
    }
}

fn push_list(out: &mut String, l: &Vec<String>)
    ensures
        final(out)@ == old(out)@ + list_text(l.deep_view()),
{
    let ghost out0 = out@;
    out.append("[");
    push_list_items(out, l, 0);
    out.append("]");
    proof {
        reveal_strlit("[");
        reveal_strlit("]");
        assert(l.deep_view().skip(0) =~= l.deep_view());
        assert(out@ =~= out0 + list_text(l.deep_view()));
    }
}

/// Writes a `ServiceList` in its canonical wire form.
pub fn encode_service_list(sl: &ServiceList) -> (r: String)
    ensures
        r@ == service_list_text(sl@),
{
    let mut out = String::new();
    out.append("{\"trusted\":");
    push_list(&mut out, &sl.trusted);
    out.append(",\"untrusted\":");
    push_list(&mut out, &sl.untrusted);
    out.append("}");
    proof {
        assert(out@ =~= service_list_text(sl@));
    }
    out
}

/// Writes the registration request body carrying the announced address.
pub fn encode_address(a: &Address) -> (r: String)
    ensures
        r@ == address_text(a@),
{
    let mut out = String::new();
    out.append("{\"address\":");
    push_quoted(&mut out, a.address.as_str());
    out.append("}");
    proof {
        assert(out@ =~= address_text(a@));
    }
    out
}

// ---------------------------------------------------------------------
// Exec decoders, each proved to agree with the spec parser.
// ---------------------------------------------------------------------

fn str_eq(a: &str, b: &str) -> (r: bool)
    ensures
        r == (a@ == b@),
{
    let na = a.unicode_len();
    let nb = b.unicode_len();
    if na != nb {
        return false;
    }
    let mut i: usize = 0;
    while i < na
        invariant
            i <= na,
            na == a@.len(),
            nb == b@.len(),
            na == nb,
            forall|k: int| 0 <= k < i ==> a@[k] == b@[k],
        decreases na - i,
    {
        if a.get_char(i) != b.get_char(i) {
            return false;
        }
        i += 1;
    }
    proof {
        assert(a@ =~= b@);
    }
    true
}

fn eat_lit(s: &str, i: usize, lit: &str) -> (r: Option<usize>)
    requires
        i <= s@.len(),
    ensures
        match after_lit(s@.skip(i as int), lit@) {
            Some(rest) => r matches Some(j) && i <= j <= s@.len() && s@.skip(j as int) == rest,
            None => r is None,
        },
{
    let n = s.unicode_len();
    let m = lit.unicode_len();
    if n - i < m {
        return None;
    }
    let mut k: usize = 0;
    while k < m
        invariant
            k <= m,
            i + m <= n,
            n == s@.len(),
            m == lit@.len(),
            forall|t: int| 0 <= t < k ==> s@[i + t] == lit@[t],
        decreases m - k,
    {
        if s.get_char(i + k) != lit.get_char(k) {
            proof {
                let tail = s@.skip(i as int);
                assert(tail[k as int] == s@[i + k]);
                assert(tail.subrange(0, m as int)[k as int] != lit@[k as int]);
                assert(!lit@.is_prefix_of(tail));
            }
            return None;
        }
        k += 1;
    }
    proof {
        let tail = s@.skip(i as int);
        assert(lit@ =~= tail.subrange(0, m as int));
        assert(lit@.is_prefix_of(tail));
        assert(tail.skip(m as int) =~= s@.skip((i + m) as int));
    }
    Some(i + m)
}

fn scan_quoted_body(s: &str, i: usize) -> (r: Option<(String, usize)>)
    requires
        i <= s@.len(),
    ensures
        match parse_quoted_body(s@.skip(i as int)) {
            Some(p) => r matches Some(q) && q.0@ == p.0 && i < q.1 <= s@.len() && s@.skip(
                q.1 as int,
            ) == p.1,
            None => r is None,
        },
    decreases s@.len() - i,
{
    let n = s.unicode_len();
    if i == n {
        proof {
            assert(s@.skip(i as int) =~= Seq::<char>::empty());
        }
        return None;
    }
    let c = s.get_char(i);
    proof {
        assert(s@.skip(i as int)[0] == s@[i as int]);
    }
    if c == '"' {
        proof {
            assert(s@.skip(i as int).skip(1) =~= s@.skip(i + 1 as int));
        }
        return Some((String::new(), i + 1));
    }
    if c == '\\' {
        if i + 1 == n {
            return None;
        }
        let c2 = s.get_char(i + 1);
        proof {
            assert(s@.skip(i as int)[1] == s@[i + 1 as int]);
        }
        if c2 == '"' || c2 == '\\' {
            proof {
                assert(s@.skip(i as int).skip(2) =~= s@.skip(i + 2 as int));
            }
            match scan_quoted_body(s, i + 2) {
                None => {
                    return None;
                },
                Some((tail, j)) => {
                    let mut head = if c2 == '"' {
                        String::from_str("\"")
                    } else {
                        String::from_str("\\")
                    };
                    proof {
                        reveal_strlit("\"");
                        reveal_strlit("\\");
                        assert(head@ =~= seq![s@[i + 1 as int]]);
                    }
                    head.append(tail.as_str());
                    proof {
                        assert(head@ =~= seq![s@[i + 1 as int]] + tail@);
                    }
                    return Some((head, j));
                },
            }
        } else {
            return None;
        }
    }
    proof {
        assert(s@.skip(i as int).skip(1) =~= s@.skip(i + 1 as int));
    }
    match scan_quoted_body(s, i + 1) {
        None => None,
        Some((tail, j)) => {
            let mut head = s.substring_char(i, i + 1).to_owned();
            proof {
                assert(s@.subrange(i as int, i + 1 as int) =~= seq![s@[i as int]]);
            }
            head.append(tail.as_str());
            proof {
                assert(head@ =~= seq![s@[i as int]] + tail@);
            }
            Some((head, j))
        },
    }
}

fn scan_quoted(s: &str, i: usize) -> (r: Option<(String, usize)>)
    requires
        i <= s@.len(),
    ensures
        match parse_quoted(s@.skip(i as int)) {
            Some(p) => r matches Some(q) && q.0@ == p.0 && i < q.1 <= s@.len() && s@.skip(
                q.1 as int,
            ) == p.1,
            None => r is None,
        },
{
    let n = s.unicode_len();
    if i == n {
        return None;
    }
    let c = s.get_char(i);
    proof {
        assert(s@.skip(i as int)[0] == s@[i as int]);
    }
    if c != '"' {
        return None;
    }
    proof {
        assert(s@.skip(i as int).skip(1) =~= s@.skip(i + 1 as int));
    }
    scan_quoted_body(s, i + 1)
}

fn scan_items(s: &str, i: usize) -> (r: Option<(Vec<String>, usize)>)
    requires
        i <= s@.len(),
    ensures
        match parse_items(s@.skip(i as int)) {
            Some(p) => r matches Some(q) && q.0.deep_view() == p.0 && i < q.1 <= s@.len()
                && s@.skip(q.1 as int) == p.1,
            None => r is None,
        },
    decreases s@.len() - i,
{
    match scan_quoted(s, i) {
        None => None,
        Some((v, j)) => {
            let n = s.unicode_len();
            if j == n {
                proof {
                    assert(s@.skip(j as int) =~= Seq::<char>::empty());
                }
                return None;
            }
            let c = s.get_char(j);
            proof {
                assert(s@.skip(j as int)[0] == s@[j as int]);
            }
            if c == ',' {
                proof {
                    assert(s@.skip(j as int).skip(1) =~= s@.skip(j + 1 as int));
                }
                match scan_items(s, j + 1) {
                    None => None,
                    Some((tail, k)) => {
                        let mut items: Vec<String> = Vec::new();
                        items.push(v);
                        let mut rest = tail;
                        items.append(&mut rest);
                        proof {
                            let p = parse_quoted(s@.skip(i as int))->Some_0;
                            let q = parse_items(s@.skip(j + 1 as int))->Some_0;
                            assert(items.deep_view() =~= seq![p.0] + q.0);
                        }
                        Some((items, k))
                    },
                }
            } else if c == ']' {
                let mut items: Vec<String> = Vec::new();
                items.push(v);
                proof {
                    let p = parse_quoted(s@.skip(i as int))->Some_0;
                    assert(items.deep_view() =~= seq![p.0]);
                    assert(s@.skip(j as int).skip(1) =~= s@.skip(j + 1 as int));
                }
                Some((items, j + 1))
            } else {
                None
            }
        },
    }
}

fn scan_list(s: &str, i: usize) -> (r: Option<(Vec<String>, usize)>)
    requires
        i <= s@.len(),
    ensures
        match parse_list(s@.skip(i as int)) {
            Some(p) => r matches Some(q) && q.0.deep_view() == p.0 && i < q.1 <= s@.len()
                && s@.skip(q.1 as int) == p.1,
            None => r is None,
        },
{
    let n = s.unicode_len();
    if i == n {
        proof {
            assert(s@.skip(i as int) =~= Seq::<char>::empty());
        }
        return None;
    }
    let c = s.get_char(i);
    proof {
        assert(s@.skip(i as int)[0] == s@[i as int]);
        assert(s@.skip(i as int).skip(1) =~= s@.skip(i + 1 as int));
    }
    if c != '[' {
        return None;
    }
    if i + 1 < n {
        let c2 = s.get_char(i + 1);
        proof {
            assert(s@.skip(i + 1 as int)[0] == s@[i + 1 as int]);
        }
        if c2 == ']' {
            let items: Vec<String> = Vec::new();
            proof {
                assert(s@.skip(i + 1 as int).skip(1) =~= s@.skip(i + 2 as int));
                assert(items.deep_view() =~= Seq::<Seq<char>>::empty());
            }
            return Some((items, i + 2));
        }
    } else {
        proof {
            assert(s@.skip(i + 1 as int) =~= Seq::<char>::empty());
        }
    }
    scan_items(s, i + 1)
}

/// Reads a `ServiceList` from its wire form; `None` where the body does
/// not parse.
pub fn decode_service_list(s: &str) -> (r: Option<ServiceList>)
    ensures
        match parse_service_list(s@) {
            Some(v) => r matches Some(sl) && sl@ == v,
            None => r is None,
        },
{
    proof {
        assert(s@.skip(0) =~= s@);
    }
    let i0 = match eat_lit(s, 0, "{\"trusted\":") {
        None => {
            return None;
        },
        Some(i) => i,
    };
    let (trusted, i1) = match scan_list(s, i0) {
        None => {
            return None;
        },
        Some(p) => p,
    };
    let i2 = match eat_lit(s, i1, ",\"untrusted\":") {
        None => {
            return None;
        },
        Some(i) => i,
    };
    let (untrusted, i3) = match scan_list(s, i2) {
        None => {
            return None;
        },
        Some(p) => p,
    };
    let i4 = match eat_lit(s, i3, "}") {
        None => {
            return None;
        },
        Some(i) => i,
    };
    let n = s.unicode_len();
    if i4 != n {
        return None;
    }
    proof {
        assert(s@.skip(i4 as int) =~= Seq::<char>::empty());
    }
    Some(ServiceList { trusted, untrusted })
}

/// Reads a heartbeat acknowledgement from its wire form.
pub fn decode_ping_response(s: &str) -> (r: Option<PingResponse>)
    ensures
        match parse_ping(s@) {
            Some(b) => r matches Some(p) && p.ack == b,
            None => r is None,
        },
{
    if str_eq(s, "{\"ack\":true}") {
        return Some(PingResponse { ack: true });
    }
    if str_eq(s, "{\"ack\":false}") {
        return Some(PingResponse { ack: false });
    }
    None
}

/// Reads a registration outcome from its wire form.
pub fn decode_register_response(s: &str) -> (r: Option<RegisterResponse>)
    ensures
        match parse_register(s@) {
            Some(v) => r matches Some(resp) && resp@ == v,
            None => r is None,
        },
{
    if str_eq(s, "{\"session\":null}") || str_eq(s, "{}") {
        return Some(RegisterResponse { session: None });
    }
    proof {
        assert(s@.skip(0) =~= s@);
    }
    let i0 = match eat_lit(s, 0, "{\"session\":{\"token\":") {
        None => {
            return None;
        },
        Some(i) => i,
    };
    let (tok, i1) = match scan_quoted(s, i0) {
        None => {
            return None;
        },
        Some(p) => p,
    };
    let close = "}}";
    let i2 = match eat_lit(s, i1, close) {
        None => {
            proof {
                let p = parse_quoted(s@.skip(i0 as int))->Some_0;
                if p.1 == close@ {
                    assert(close@.subrange(0, close@.len() as int) =~= close@);
                    assert(close@.is_prefix_of(p.1));
                }
            }
            return None;
        },
        Some(i) => i,
    };
    let n = s.unicode_len();
    if i2 != n {
        proof {
            let p = parse_quoted(s@.skip(i0 as int))->Some_0;
            assert(s@.skip(i2 as int).len() > 0);
            if p.1 == close@ {
                assert(p.1.len() == close@.len());
            }
        }
        return None;
    }
    proof {
        let p = parse_quoted(s@.skip(i0 as int))->Some_0;
        assert(s@.skip(i2 as int) =~= Seq::<char>::empty());
        assert(close@.is_prefix_of(p.1));
        assert(p.1.len() == close@.len());
        assert(p.1 =~= close@);
    }
    Some(RegisterResponse { session: Some(Session { token: tok }) })
}

} // verus!
