//! The laws of the front end: parsing the canonical serialization of a
//! well-formed document yields that document and no diagnostics, every parsed
//! document is well formed, every malformed statement line yields exactly one
//! diagnostic, and diagnostics come out sorted by source position.

use vstd::prelude::*;

use vstd::arithmetic::div_mod::lemma_div_denominator;
use vstd::arithmetic::div_mod::lemma_div_is_ordered;
use vstd::arithmetic::div_mod::lemma_fundamental_div_mod;

use crate::ast::is_identifier_seq;
use crate::ast::is_forma_seq;
use crate::ast::is_slug_seq;
use crate::ast::wf_declaration;
use crate::ast::wf_license;
use crate::ast::wf_signature;
use crate::ast::wf_year;
use crate::ast::CopyrightV;
use crate::ast::DeclarationV;
use crate::ast::Diagnostic;
use crate::ast::DocumentV;
use crate::ast::SignatureV;
use crate::ast::SpdxLineV;
use crate::ast::TemplateLineV;
use crate::ast::Year;
use crate::chars::in_class;
use crate::chars::is_ascii_digit;
use crate::chars::is_lower;
use crate::chars::is_space;
use crate::chars::is_upper;
use crate::chars::lemma_munch;
use crate::chars::lemma_munch_exact;
use crate::chars::spec_munch;
use crate::chars::CharClass;
use crate::chars::AMP;
use crate::chars::BANG;
use crate::chars::CLOWER;
use crate::chars::COLON;
use crate::chars::COMMA;
use crate::chars::DASH;
use crate::chars::GT;
use crate::chars::LPAREN;
use crate::chars::RPAREN;
use crate::chars::NL;
use crate::chars::SEMI;
use crate::chars::SP;
use crate::header::spec_parse_copyright;
use crate::header::spec_parse_spdx;
use crate::header::spec_parse_template;
use crate::header::wf_copyright;
use crate::header::wf_spdx;
use crate::header::wf_template;
use crate::header::year_then_owner;
use crate::serialize::digits4;
use crate::serialize::ser_copyright;
use crate::serialize::ser_declaration;
use crate::serialize::ser_decls;
use crate::serialize::ser_document;
use crate::serialize::ser_formas;
use crate::serialize::ser_signature;
use crate::serialize::ser_spdx;
use crate::serialize::ser_template;
use crate::serialize::ser_year;
use crate::serialize::wf_document;
use crate::year::four_digits_at;
use crate::year::spec_lex_year;
use crate::year::year_value;

verus! {

/// The bytes of `t` stand in `s` at offset `i`.
pub open spec fn matches_at(s: Seq<u8>, i: int, t: Seq<u8>) -> bool {
    &&& 0 <= i
    &&& i + t.len() <= s.len()
    &&& forall|j: int| 0 <= j < t.len() ==> s[i + j] == t[j]
}

/// A concatenation stands at `i` exactly when its parts stand in order.
proof fn lemma_matches_split(s: Seq<u8>, i: int, a: Seq<u8>, b: Seq<u8>)
    ensures
        matches_at(s, i, a + b) <==> (matches_at(s, i, a) && matches_at(s, i + a.len(), b)),
{
    if matches_at(s, i, a + b) {
        assert forall|j: int| 0 <= j < a.len() implies s[i + j] == a[j] by {
            assert((a + b)[j] == a[j]);
        }
        assert forall|j: int| 0 <= j < b.len() implies s[i + a.len() + j] == b[j] by {
            assert((a + b)[a.len() + j] == b[j]);
            assert(s[i + (a.len() + j)] == (a + b)[a.len() + j]);
        }
    }
    if matches_at(s, i, a) && matches_at(s, i + a.len(), b) {
        assert forall|j: int| 0 <= j < (a + b).len() implies s[i + j] == (a + b)[j] by {
            if j < a.len() {
            } else {
                assert((a + b)[j] == b[j - a.len()]);
                assert(s[i + a.len() + (j - a.len())] == b[j - a.len()]);
            }
        }
    }
}

/// Matched bytes are the subrange they cover.
proof fn lemma_matches_subrange(s: Seq<u8>, i: int, t: Seq<u8>)
    requires
        matches_at(s, i, t),
    ensures
        s.subrange(i, i + t.len()) == t,
{
    assert(s.subrange(i, i + t.len()) =~= t);
}

/// The four digits of a value below ten thousand reassemble into it.
proof fn lemma_digits4_value(v: u16)
    requires
        v <= 9999,
    ensures
        forall|j: int| 0 <= j < 4 ==> is_ascii_digit(#[trigger] digits4(v)[j]),
        digits4(v).len() == 4,
        1000 * (digits4(v)[0] - 0x30) + 100 * (digits4(v)[1] - 0x30) + 10 * (digits4(v)[2] - 0x30)
            + (digits4(v)[3] - 0x30) == v,
{
    let x = v as int;
    lemma_fundamental_div_mod(x, 10);
    lemma_fundamental_div_mod(x / 10, 10);
    lemma_fundamental_div_mod(x / 100, 10);
    lemma_div_denominator(x, 10, 10);
    lemma_div_denominator(x, 100, 10);
    lemma_div_is_ordered(x, 9999, 1000);
    lemma_div_is_ordered(x, 9999, 100);
    lemma_div_is_ordered(x, 9999, 10);
    assert(x / 1000 <= 9);
    assert(x % 10 < 10 && 0 <= x % 10);
    assert((x / 10) % 10 < 10 && 0 <= (x / 10) % 10);
    assert((x / 100) % 10 < 10 && 0 <= (x / 100) % 10);
    assert(x / 10 / 10 == x / 100);
    assert(x / 100 / 10 == x / 1000);
    lemma_fundamental_div_mod(x / 100, 10);
    assert((x / 100) % 10 == x / 100 - 10 * (x / 1000));
    assert((x / 10) % 10 == x / 10 - 10 * (x / 100));
    assert(x % 10 == x - 10 * (x / 10));
    assert(0 <= x / 10 && 0 <= x / 100 && 0 <= x / 1000) by {
        lemma_div_is_ordered(0, x, 10);
        lemma_div_is_ordered(0, x, 100);
        lemma_div_is_ordered(0, x, 1000);
    }
    assert(digits4(v)[0] == (0x30 + x / 1000) as u8);
    assert(1000 * (digits4(v)[0] - 0x30) + 100 * (digits4(v)[1] - 0x30) + 10 * (digits4(v)[2]
        - 0x30) + (digits4(v)[3] - 0x30) == v);
}

/// Lexing a serialized year followed by a space yields that year and stops
/// right before the space.
proof fn lemma_year_ser_parse(s: Seq<u8>, i: int, hi: int, y: Year)
    requires
        0 <= i <= hi <= s.len(),
        wf_year(y),
        matches_at(s, i, ser_year(y)),
        i + ser_year(y).len() < hi,
        s[i + ser_year(y).len()] == SP,
    ensures
        spec_lex_year(s, i, hi) == Ok::<(Year, int), crate::ast::LexError>(
            (y, i + ser_year(y).len()),
        ),
{
    match y {
        Year::Bare(v) => {
            lemma_digits4_value(v);
            assert(four_digits_at(s, i, hi));
            assert(year_value(s, i) == v);
            assert(s[i + 4] == SP);
        },
        Year::Open(v) => {
            lemma_digits4_value(v);
            lemma_matches_split(s, i, digits4(v), seq![DASH]);
            assert(four_digits_at(s, i, hi));
            assert(year_value(s, i) == v);
            assert(matches_at(s, i + 4, seq![DASH]));
            assert(s[i + 4 + 0] == seq![DASH][0]);
            assert(s[i + 4] == DASH);
            assert(s[i + 5] == SP);
            assert(!is_ascii_digit(s[i + 5]));
        },
        Year::Closed(a, b) => {
            lemma_digits4_value(a);
            lemma_digits4_value(b);
            lemma_matches_split(s, i, digits4(a) + seq![DASH], digits4(b));
            lemma_matches_split(s, i, digits4(a), seq![DASH]);
            assert(four_digits_at(s, i, hi));
            assert(year_value(s, i) == a);
            assert(matches_at(s, i + 4, seq![DASH]));
            assert(s[i + 4 + 0] == seq![DASH][0]);
            assert(s[i + 4] == DASH);
            assert(matches_at(s, i + 5, digits4(b)));
            assert(is_ascii_digit(s[i + 5]));
            assert(four_digits_at(s, i + 5, hi));
            assert(year_value(s, i + 5) == b);
        },
    }
}

/// Whether a copyright clause leads with a year is a property of the clause's
/// own bytes: it transfers between a window of a buffer and the standalone
/// copy of that window.
proof fn lemma_year_then_owner_window(s: Seq<u8>, cs: int, hi: int)
    requires
        0 <= cs <= hi <= s.len(),
    ensures
        year_then_owner(s, cs, hi) == year_then_owner(s.subrange(cs, hi), 0, hi - cs),
{
    let t = s.subrange(cs, hi);
    assert(forall|j: int| 0 <= j < hi - cs ==> t[j] == s[cs + j]);
    assert(four_digits_at(t, 0, hi - cs) == four_digits_at(s, cs, hi));
    if four_digits_at(s, cs, hi) {
        assert(year_value(t, 0) == year_value(s, cs));
        assert(four_digits_at(t, 5, hi - cs) == four_digits_at(s, cs + 5, hi));
        if four_digits_at(s, cs + 5, hi) {
            assert(year_value(t, 5) == year_value(s, cs + 5));
        }
    }
}

/// Parsing a serialized copyright clause that fills `[cs, hi)` yields that
/// clause.
proof fn lemma_copyright_ser_parse(s: Seq<u8>, cs: int, hi: int, c: CopyrightV)
    requires
        0 <= cs <= hi <= s.len(),
        wf_copyright(c),
        matches_at(s, cs, ser_copyright(c)),
        hi == cs + ser_copyright(c).len(),
    ensures
        spec_parse_copyright(s, cs, hi) == Ok::<CopyrightV, crate::ast::GrammarError>(c),
{
    match c.year {
        Some(y) => {
            let yl = ser_year(y).len();
            lemma_matches_split(s, cs, ser_year(y) + seq![SP], c.owner);
            lemma_matches_split(s, cs, ser_year(y), seq![SP]);
            assert(s[cs + yl + 0] == seq![SP][0]);
            assert(s[cs + yl] == SP);
            lemma_year_ser_parse(s, cs, hi, y);
            let e = cs + yl;
            assert(year_then_owner(s, cs, hi));
            lemma_matches_subrange(s, e + 1, c.owner);
            let r = spec_parse_copyright(s, cs, hi);
            assert(r->Ok_0 =~= c);
        },
        None => {
            assert(Seq::<u8>::empty() + c.owner =~= c.owner);
            assert(matches_at(s, cs, c.owner));
            lemma_matches_subrange(s, cs, c.owner);
            lemma_year_then_owner_window(s, cs, hi);
            assert(!year_then_owner(s, cs, hi));
            let r = spec_parse_copyright(s, cs, hi);
            assert(r->Ok_0 =~= c);
        },
    }
}

/// Parsing a serialized SPDX line that fills `[lo, hi)` yields that line.
proof fn lemma_spdx_ser_parse(s: Seq<u8>, lo: int, hi: int, v: SpdxLineV)
    requires
        0 <= lo <= hi <= s.len(),
        wf_spdx(v),
        matches_at(s, lo, ser_spdx(v)),
        hi == lo + ser_spdx(v).len(),
    ensures
        spec_parse_spdx(s, lo, hi) == Ok::<SpdxLineV, crate::ast::GrammarError>(v),
{
    let tail = match v.copyright {
        Some(c) => seq![SEMI, SP, LPAREN, CLOWER, RPAREN, SP] + ser_copyright(c),
        None => Seq::<u8>::empty(),
    };
    assert(ser_spdx(v) == seq![BANG, SP] + (v.license + tail)) by {
        assert(ser_spdx(v) =~= seq![BANG, SP] + (v.license + tail));
    }
    lemma_matches_split(s, lo, seq![BANG, SP], v.license + tail);
    lemma_matches_split(s, lo + 2, v.license, tail);
    assert(s[lo + 0] == seq![BANG, SP][0]);
    assert(s[lo + 1] == seq![BANG, SP][1]);
    let ls = lo + 2;
    let semi0 = ls + v.license.len();
    assert(forall|j: int| ls <= j < semi0 ==> in_class(s[j], CharClass::NotSemi)) by {
        assert(forall|j: int| 0 <= j < v.license.len() ==> s[ls + j] == v.license[j]);
        assert forall|j: int| ls <= j < semi0 implies in_class(s[j], CharClass::NotSemi) by {
            assert(s[ls + (j - ls)] == v.license[j - ls]);
        }
    }
    match v.copyright {
        None => {
            assert(semi0 == hi);
            lemma_munch_exact(s, ls, hi, hi, CharClass::NotSemi);
            lemma_matches_subrange(s, ls, v.license);
            let r = spec_parse_spdx(s, lo, hi);
            assert(r->Ok_0 =~= v);
        },
        Some(c) => {
            lemma_matches_split(s, semi0, seq![SEMI, SP, LPAREN, CLOWER, RPAREN, SP], ser_copyright(c));
            assert(s[semi0 + 0] == SEMI);
            assert(s[semi0 + 1] == SP);
            assert(s[semi0 + 2] == LPAREN);
            assert(s[semi0 + 3] == CLOWER);
            assert(s[semi0 + 4] == RPAREN);
            assert(s[semi0 + 5] == SP);
            assert(!in_class(s[semi0], CharClass::NotSemi));
            lemma_munch_exact(s, ls, semi0, hi, CharClass::NotSemi);
            lemma_matches_subrange(s, ls, v.license);
            lemma_copyright_ser_parse(s, semi0 + 6, hi, c);
            let r = spec_parse_spdx(s, lo, hi);
            assert(r->Ok_0 =~= v);
        },
    }
}

/// Parsing a serialized template line that fills `[lo, hi)` yields that line.
proof fn lemma_template_ser_parse(s: Seq<u8>, lo: int, hi: int, t: TemplateLineV)
    requires
        0 <= lo <= hi <= s.len(),
        wf_template(t),
        matches_at(s, lo, ser_template(t)),
        hi == lo + ser_template(t).len(),
    ensures
        spec_parse_template(s, lo, hi) == Ok::<TemplateLineV, crate::ast::GrammarError>(t),
{
    lemma_matches_split(s, lo, seq![AMP, SP], t.template);
    assert(ser_template(t) == seq![AMP, SP] + t.template);
    assert(s[lo + 0] == seq![AMP, SP][0]);
    assert(s[lo + 1] == seq![AMP, SP][1]);
    assert(forall|j: int| lo + 2 <= j < hi ==> in_class(s[j], CharClass::Slug)) by {
        assert forall|j: int| lo + 2 <= j < hi implies in_class(s[j], CharClass::Slug) by {
            assert(s[lo + 2 + (j - lo - 2)] == t.template[j - lo - 2]);
        }
    }
    lemma_munch_exact(s, lo + 2, hi, hi, CharClass::Slug);
    lemma_matches_subrange(s, lo + 2, t.template);
    let r = spec_parse_template(s, lo, hi);
    assert(r->Ok_0 =~= t);
}

/// A serialized non-empty forma list is itself non-empty.
proof fn lemma_ser_formas_len(l: Seq<Seq<u8>>)
    requires
        l.len() >= 1,
        crate::ast::wf_formas(l),
    ensures
        ser_formas(l).len() >= l[0].len() >= 1,
{
    assert(is_forma_seq(l[0]));
}

/// Parsing a serialized forma list yields that list and stops right after
/// its last forma, provided what follows is the end of the window or a space
/// leading to the arrow.
proof fn lemma_formas_ser_parse(s: Seq<u8>, i: int, hi: int, l: Seq<Seq<u8>>)
    requires
        0 <= i <= hi <= s.len(),
        l.len() >= 1,
        crate::ast::wf_formas(l),
        matches_at(s, i, ser_formas(l)),
        i + ser_formas(l).len() <= hi,
        i + ser_formas(l).len() == hi || {
            let e = i + ser_formas(l).len();
            &&& s[e] == SP
            &&& spec_munch(s, e, hi, CharClass::Space) < hi
            &&& s[spec_munch(s, e, hi, CharClass::Space)] == DASH
        },
    ensures
        crate::decl::spec_parse_formas(s, i, hi) == Ok::<
            (Seq<Seq<u8>>, int),
            crate::ast::ParseError,
        >((l, i + ser_formas(l).len())),
    decreases l.len(),
{
    let e = i + ser_formas(l).len();
    assert(is_forma_seq(l[0]));
    if l.len() == 1 {
        assert(ser_formas(l) == l[0]);
        let fe = i + l[0].len();
        assert(forall|j: int| 0 <= j < l[0].len() ==> s[i + j] == l[0][j]);
        assert forall|j: int| i <= j < fe implies in_class(s[j], CharClass::Forma) by {
            assert(s[i + (j - i)] == l[0][j - i]);
        }
        if fe < hi {
            assert(s[fe] == SP);
            assert(!in_class(s[fe], CharClass::Forma));
        }
        lemma_munch_exact(s, i, fe, hi, CharClass::Forma);
        assert(s[i + 0] == l[0][0]);
        assert(is_upper(s[i]));
        lemma_matches_subrange(s, i, l[0]);
        let a = spec_munch(s, fe, hi, CharClass::Space);
        if fe == hi {
            lemma_munch_exact(s, fe, fe, hi, CharClass::Space);
            assert(a == hi);
        } else {
            assert(s[a] == DASH && a < hi);
            assert(s[a] != COMMA);
        }
        assert(seq![l[0]] =~= l);
    } else {
        let rest = l.drop_first();
        assert(ser_formas(l) == l[0] + seq![COMMA, SP] + ser_formas(rest));
        assert(ser_formas(l) == (l[0] + seq![COMMA, SP]) + ser_formas(rest)) by {
            assert(l[0] + seq![COMMA, SP] + ser_formas(rest) =~= (l[0] + seq![COMMA, SP])
                + ser_formas(rest));
        }
        lemma_matches_split(s, i, l[0] + seq![COMMA, SP], ser_formas(rest));
        lemma_matches_split(s, i, l[0], seq![COMMA, SP]);
        let fe = i + l[0].len();
        assert(s[fe + 0] == seq![COMMA, SP][0]);
        assert(s[fe + 1] == seq![COMMA, SP][1]);
        assert(s[fe] == COMMA && s[fe + 1] == SP);
        assert(forall|j: int| 0 <= j < l[0].len() ==> s[i + j] == l[0][j]);
        assert forall|j: int| i <= j < fe implies in_class(s[j], CharClass::Forma) by {
            assert(s[i + (j - i)] == l[0][j - i]);
        }
        assert(crate::ast::wf_formas(rest)) by {
            assert(forall|k: int| 0 <= k < rest.len() ==> rest[k] == l[k + 1]);
        }
        lemma_ser_formas_len(rest);
        assert(fe + 2 + ser_formas(rest).len() == e);
        assert(fe + 2 < e <= hi);
        assert(!in_class(s[fe], CharClass::Forma));
        lemma_munch_exact(s, i, fe, hi, CharClass::Forma);
        assert(s[i + 0] == l[0][0]);
        assert(is_upper(s[i]));
        lemma_matches_subrange(s, i, l[0]);
        // after the forma: no space before the comma
        assert(!in_class(s[fe], CharClass::Space));
        lemma_munch_exact(s, fe, fe, hi, CharClass::Space);
        // after the comma: exactly one space, then the next forma
        assert(is_forma_seq(rest[0]));
        assert(ser_formas(rest)[0] == rest[0][0]) by {
            if rest.len() == 1 {
            } else {
                assert((rest[0] + seq![COMMA, SP] + ser_formas(rest.drop_first()))[0]
                    == rest[0][0]);
            }
        }
        assert(s[fe + 2 + 0] == ser_formas(rest)[0]);
        assert(is_upper(s[fe + 2]));
        assert(!in_class(s[fe + 2], CharClass::Space));
        assert(in_class(s[fe + 1], CharClass::Space));
        lemma_munch_exact(s, fe + 1, fe + 2, hi, CharClass::Space);
        lemma_formas_ser_parse(s, fe + 2, hi, rest);
        assert(seq![l[0]] + rest =~= l);
    }
}

/// Parsing a serialized signature that fills `[q, hi)` yields that signature.
proof fn lemma_signature_ser_parse(s: Seq<u8>, q: int, hi: int, g: SignatureV)
    requires
        0 <= q <= hi <= s.len(),
        wf_signature(g),
        matches_at(s, q, ser_signature(g)),
        hi == q + ser_signature(g).len(),
    ensures
        crate::decl::spec_parse_signature(s, q, hi) == Ok::<
            SignatureV,
            crate::ast::ParseError,
        >(g),
{
    let dom = ser_formas(g.domain);
    let arrow = seq![SP, DASH, GT, SP];
    let rng = ser_formas(g.range);
    assert(ser_signature(g) == dom + (arrow + rng)) by {
        assert(ser_signature(g) =~= dom + (arrow + rng));
    }
    lemma_matches_split(s, q, dom, arrow + rng);
    lemma_matches_split(s, q + dom.len(), arrow, rng);
    let de = q + dom.len();
    assert(s[de + 0] == arrow[0]);
    assert(s[de + 1] == arrow[1]);
    assert(s[de + 2] == arrow[2]);
    assert(s[de + 3] == arrow[3]);
    lemma_ser_formas_len(g.range);
    // one space, then the arrow
    assert(in_class(s[de], CharClass::Space));
    assert(!in_class(s[de + 1], CharClass::Space));
    lemma_munch_exact(s, de, de + 1, hi, CharClass::Space);
    lemma_formas_ser_parse(s, q, hi, g.domain);
    // one space after the arrow, then the range formas
    assert(ser_formas(g.range)[0] == g.range[0][0]) by {
        if g.range.len() == 1 {
        } else {
            assert((g.range[0] + seq![COMMA, SP] + ser_formas(g.range.drop_first()))[0]
                == g.range[0][0]);
        }
    }
    assert(is_forma_seq(g.range[0]));
    assert(s[de + 4 + 0] == rng[0]);
    assert(is_upper(s[de + 4]));
    assert(in_class(s[de + 3], CharClass::Space));
    assert(!in_class(s[de + 4], CharClass::Space));
    lemma_munch_exact(s, de + 2, de + 2, hi, CharClass::Space);
    lemma_munch_exact(s, de + 3, de + 4, hi, CharClass::Space);
    lemma_formas_ser_parse(s, de + 4, hi, g.range);
    lemma_munch_exact(s, hi, hi, hi, CharClass::Space);
    let r = crate::decl::spec_parse_signature(s, q, hi);
    assert(r->Ok_0 =~= g);
}

/// Parsing a serialized declaration that fills `[lo, hi)` yields that
/// declaration.
proof fn lemma_decl_ser_parse(s: Seq<u8>, lo: int, hi: int, d: DeclarationV)
    requires
        0 <= lo <= hi <= s.len(),
        wf_declaration(d),
        matches_at(s, lo, ser_declaration(d)),
        hi == lo + ser_declaration(d).len(),
    ensures
        crate::decl::spec_parse_declaration(s, lo, hi) == Ok::<
            DeclarationV,
            crate::ast::ParseError,
        >(d),
{
    let id = d.identifier;
    let sigpart = match d.signature {
        Some(g) => seq![SP] + ser_signature(g),
        None => Seq::<u8>::empty(),
    };
    assert(ser_declaration(d) == id + (seq![SP, COLON] + sigpart)) by {
        assert(ser_declaration(d) =~= id + (seq![SP, COLON] + sigpart));
    }
    lemma_matches_split(s, lo, id, seq![SP, COLON] + sigpart);
    lemma_matches_split(s, lo + id.len(), seq![SP, COLON], sigpart);
    let ie = lo + id.len();
    assert(s[ie + 0] == seq![SP, COLON][0]);
    assert(s[ie + 1] == seq![SP, COLON][1]);
    assert(s[ie] == SP && s[ie + 1] == COLON);
    assert(is_identifier_seq(id));
    assert(forall|j: int| 0 <= j < id.len() ==> s[lo + j] == id[j]);
    assert forall|j: int| lo <= j < ie implies in_class(s[j], CharClass::Ident) by {
        assert(s[lo + (j - lo)] == id[j - lo]);
    }
    assert(!in_class(s[ie], CharClass::Ident));
    lemma_munch_exact(s, lo, ie, hi, CharClass::Ident);
    assert(s[lo + 0] == id[0]);
    assert(is_lower(s[lo]));
    lemma_matches_subrange(s, lo, id);
    // the byte after the identifier is the space before the colon
    assert(is_space(s[ie]));
    // one space, then the colon
    assert(!in_class(s[ie + 1], CharClass::Space));
    lemma_munch_exact(s, ie, ie + 1, hi, CharClass::Space);
    match d.signature {
        None => {
            assert(ie + 2 == hi);
            lemma_munch_exact(s, hi, hi, hi, CharClass::Space);
            let r = crate::decl::spec_parse_declaration(s, lo, hi);
            assert(r->Ok_0 =~= d);
        },
        Some(g) => {
            lemma_matches_split(s, ie + 2, seq![SP], ser_signature(g));
            assert(s[ie + 2 + 0] == seq![SP][0]);
            assert(s[ie + 2] == SP);
            lemma_ser_formas_len(g.domain);
            assert(ser_signature(g)[0] == g.domain[0][0]) by {
                assert(ser_signature(g)[0] == ser_formas(g.domain)[0]);
                if g.domain.len() == 1 {
                } else {
                    assert((g.domain[0] + seq![COMMA, SP] + ser_formas(g.domain.drop_first()))[0]
                        == g.domain[0][0]);
                }
            }
            assert(is_forma_seq(g.domain[0]));
            assert(s[ie + 3 + 0] == ser_signature(g)[0]);
            assert(is_upper(s[ie + 3]));
            assert(in_class(s[ie + 2], CharClass::Space));
            assert(!in_class(s[ie + 3], CharClass::Space));
            lemma_munch_exact(s, ie + 2, ie + 3, hi, CharClass::Space);
            lemma_signature_ser_parse(s, ie + 3, hi, g);
            let r = crate::decl::spec_parse_declaration(s, lo, hi);
            assert(r->Ok_0 =~= d);
        },
    }
}

/// No byte of a serialized forma list is a line feed.
proof fn lemma_ser_formas_no_nl(l: Seq<Seq<u8>>)
    requires
        crate::ast::wf_formas(l),
    ensures
        forall|j: int| 0 <= j < ser_formas(l).len() ==> #[trigger] ser_formas(l)[j] != NL,
    decreases l.len(),
{
    if l.len() == 0 {
    } else if l.len() == 1 {
        assert(is_forma_seq(l[0]));
    } else {
        assert(is_forma_seq(l[0]));
        assert(crate::ast::wf_formas(l.drop_first())) by {
            assert(forall|k: int| 0 <= k < l.drop_first().len() ==> l.drop_first()[k] == l[k + 1]);
        }
        lemma_ser_formas_no_nl(l.drop_first());
        let a = l[0] + seq![COMMA, SP];
        assert forall|j: int| 0 <= j < ser_formas(l).len() implies #[trigger] ser_formas(l)[j]
            != NL by {
            if j < l[0].len() {
                assert(ser_formas(l)[j] == l[0][j]);
            } else if j < l[0].len() + 2 {
                assert(ser_formas(l)[j] == seq![COMMA, SP][j - l[0].len()]);
            } else {
                assert(ser_formas(l)[j] == ser_formas(l.drop_first())[j - l[0].len() - 2]);
            }
        }
    }
}

/// A serialized declaration line is non-empty, starts with its identifier's
/// leading lowercase letter, and holds no line feed.
proof fn lemma_ser_declaration_line(d: DeclarationV)
    requires
        wf_declaration(d),
    ensures
        ser_declaration(d).len() >= 1,
        ser_declaration(d)[0] == d.identifier[0],
        is_lower(ser_declaration(d)[0]),
        forall|j: int| 0 <= j < ser_declaration(d).len() ==> #[trigger] ser_declaration(d)[j]
            != NL,
    decreases 0int,
{
    let line = ser_declaration(d);
    let id = d.identifier;
    assert(is_identifier_seq(id));
    assert(line[0] == id[0]);
    let sigpart = match d.signature {
        Some(g) => seq![SP] + ser_signature(g),
        None => Seq::<u8>::empty(),
    };
    assert forall|j: int| 0 <= j < line.len() implies #[trigger] line[j] != NL by {
        if j < id.len() {
            assert(line[j] == id[j]);
        } else if j < id.len() + 2 {
            assert(line[j] == seq![SP, COLON][j - id.len()]);
        } else {
            let k = j - id.len() - 2;
            assert(line[j] == sigpart[k]);
            match d.signature {
                Some(g) => {
                    lemma_ser_formas_no_nl(g.domain);
                    lemma_ser_formas_no_nl(g.range);
                    let dom = ser_formas(g.domain);
                    let arrow = seq![SP, DASH, GT, SP];
                    if k == 0 {
                        assert(sigpart[0] == SP);
                    } else {
                        let m = k - 1;
                        assert(sigpart[k] == ser_signature(g)[m]);
                        if m < dom.len() {
                            assert(ser_signature(g)[m] == dom[m]);
                        } else if m < dom.len() + 4 {
                            assert(ser_signature(g)[m] == arrow[m - dom.len()]);
                        } else {
                            assert(ser_signature(g)[m] == ser_formas(g.range)[m - dom.len() - 4]);
                        }
                    }
                },
                None => {},
            }
        }
    }
}

/// A serialized SPDX line starts with `!` and holds no line feed.
proof fn lemma_ser_spdx_line(v: SpdxLineV)
    requires
        wf_spdx(v),
    ensures
        ser_spdx(v).len() >= 3,
        ser_spdx(v)[0] == BANG,
        forall|j: int| 0 <= j < ser_spdx(v).len() ==> #[trigger] ser_spdx(v)[j] != NL,
{
    let sp = ser_spdx(v);
    assert(wf_license(v.license));
    let tail = match v.copyright {
        Some(c) => seq![SEMI, SP, LPAREN, CLOWER, RPAREN, SP] + ser_copyright(c),
        None => Seq::<u8>::empty(),
    };
    assert forall|j: int| 0 <= j < sp.len() implies #[trigger] sp[j] != NL by {
        if j < 2 {
            assert(sp[j] == seq![BANG, SP][j]);
        } else if j < 2 + v.license.len() {
            assert(sp[j] == v.license[j - 2]);
        } else {
            let k = j - 2 - v.license.len();
            assert(sp[j] == tail[k]);
            match v.copyright {
                Some(c) => {
                    assert(wf_copyright(c));
                    let ypart = match c.year {
                        Some(y) => ser_year(y) + seq![SP],
                        None => Seq::<u8>::empty(),
                    };
                    if k < 6 {
                        assert(tail[k] == seq![SEMI, SP, LPAREN, CLOWER, RPAREN, SP][k]);
                    } else {
                        let m = k - 6;
                        assert(tail[k] == ser_copyright(c)[m]);
                        if m < ypart.len() {
                            assert(ser_copyright(c)[m] == ypart[m]);
                            match c.year {
                                Some(y) => {
                                    lemma_year_digits_no_nl(y);
                                },
                                None => {},
                            }
                        } else {
                            assert(ser_copyright(c)[m] == c.owner[m - ypart.len()]);
                        }
                    }
                },
                None => {},
            }
        }
    }
}

/// No byte of a serialized year is a line feed.
proof fn lemma_year_digits_no_nl(y: Year)
    requires
        wf_year(y),
    ensures
        forall|j: int| 0 <= j < ser_year(y).len() ==> #[trigger] ser_year(y)[j] != NL,
        forall|j: int| 0 <= j < ser_year(y).len() ==> !is_space(#[trigger] ser_year(y)[j]),
{
    match y {
        Year::Bare(v) => {
            lemma_digits4_value(v);
        },
        Year::Open(v) => {
            lemma_digits4_value(v);
            assert forall|j: int| 0 <= j < ser_year(y).len() implies #[trigger] ser_year(y)[j]
                != NL && !is_space(ser_year(y)[j]) by {
                if j < 4 {
                    assert(ser_year(y)[j] == digits4(v)[j]);
                } else {
                    assert(ser_year(y)[j] == DASH);
                }
            }
        },
        Year::Closed(a, b) => {
            lemma_digits4_value(a);
            lemma_digits4_value(b);
            assert forall|j: int| 0 <= j < ser_year(y).len() implies #[trigger] ser_year(y)[j]
                != NL && !is_space(ser_year(y)[j]) by {
                if j < 4 {
                    assert(ser_year(y)[j] == digits4(a)[j]);
                } else if j == 4 {
                    assert(ser_year(y)[j] == (digits4(a) + seq![DASH])[j]);
                    assert(ser_year(y)[j] == DASH);
                } else {
                    assert(ser_year(y)[j] == digits4(b)[j - 5]);
                }
            }
        },
    }
}

/// A serialized template line starts with `&` and holds no line feed.
proof fn lemma_ser_template_line(t: TemplateLineV)
    requires
        wf_template(t),
    ensures
        ser_template(t).len() >= 3,
        ser_template(t)[0] == AMP,
        forall|j: int| 0 <= j < ser_template(t).len() ==> #[trigger] ser_template(t)[j] != NL,
{
    let tp = ser_template(t);
    assert(is_slug_seq(t.template));
    assert forall|j: int| 0 <= j < tp.len() implies #[trigger] tp[j] != NL by {
        if j < 2 {
            assert(tp[j] == seq![AMP, SP][j]);
        } else {
            assert(tp[j] == t.template[j - 2]);
        }
    }
}

/// A line of known content and length: the line that starts at `i` ends
/// exactly where its bytes do.
proof fn lemma_line_end_at(s: Seq<u8>, i: int, line: Seq<u8>)
    requires
        matches_at(s, i, line),
        forall|j: int| 0 <= j < line.len() ==> #[trigger] line[j] != NL,
        i + line.len() == s.len() || s[i + line.len()] == NL,
    ensures
        crate::document::line_end_of(s, i) == i + line.len(),
{
    let e = i + line.len();
    assert forall|j: int| i <= j < e implies in_class(s[j], CharClass::NotNewline) by {
        assert(s[i + (j - i)] == line[j - i]);
    }
    lemma_munch_exact(s, i, e, s.len() as int, CharClass::NotNewline);
}

/// A position holding a byte that is neither whitespace nor a line feed
/// starts a non-blank line: the blank-line skipper stays put.
proof fn lemma_skip_blanks_here(s: Seq<u8>, i: int)
    requires
        0 <= i < s.len(),
        !is_space(s[i]),
        s[i] != NL,
    ensures
        crate::document::spec_skip_blanks(s, i) == i,
{
    lemma_munch(s, i, s.len() as int, CharClass::NotNewline);
    let e = crate::document::line_end_of(s, i);
    if e == i {
        assert(!in_class(s[i], CharClass::NotNewline));
        assert(false);
    }
    assert(!crate::document::is_blank_range(s, i, e)) by {
        assert(i <= i < e && !is_space(s[i]));
    }
}

/// Parsing serialized declarations that fill the rest of the buffer yields
/// exactly those declarations and no diagnostics.
proof fn lemma_body_ser_parse(s: Seq<u8>, i: int, l: Seq<DeclarationV>)
    requires
        0 <= i <= s.len(),
        forall|k: int| 0 <= k < l.len() ==> wf_declaration(#[trigger] l[k]),
        matches_at(s, i, ser_decls(l)),
        i + ser_decls(l).len() == s.len(),
    ensures
        crate::document::spec_parse_body(s, i) == (l, Seq::<Diagnostic>::empty()),
    decreases l.len(),
{
    if l.len() == 0 {
        assert(i == s.len());
        assert(crate::document::spec_parse_body(s, i) == (
            Seq::<DeclarationV>::empty(),
            Seq::<Diagnostic>::empty(),
        ));
        assert(l =~= Seq::<DeclarationV>::empty());
    } else {
        let line = ser_declaration(l[0]);
        let rest = l.drop_first();
        lemma_ser_declaration_line(l[0]);
        assert(ser_decls(l) == line + (seq![NL] + ser_decls(rest))) by {
            assert(ser_decls(l) =~= line + (seq![NL] + ser_decls(rest)));
        }
        lemma_matches_split(s, i, line, seq![NL] + ser_decls(rest));
        lemma_matches_split(s, i + line.len(), seq![NL], ser_decls(rest));
        let e = i + line.len();
        assert(s[e + 0] == seq![NL][0]);
        assert(s[e] == NL);
        lemma_line_end_at(s, i, line);
        assert(s[i + 0] == line[0]);
        assert(is_lower(s[i]));
        assert(!crate::document::is_blank_range(s, i, e)) by {
            assert(i <= i < e && !is_space(s[i]));
        }
        assert(e < s.len());
        assert(crate::document::next_line(s, i) == e + 1);
        lemma_decl_ser_parse(s, i, e, l[0]);
        assert(forall|k: int| 0 <= k < rest.len() ==> rest[k] == l[k + 1]);
        lemma_body_ser_parse(s, e + 1, rest);
        let r = crate::document::spec_parse_body(s, i);
        assert(r.0 == seq![l[0]] + rest);
        assert(seq![l[0]] + rest =~= l);
        assert(r.1 =~= Seq::<Diagnostic>::empty());
    }
}

/// The round-trip law: parsing the canonical serialization of a well-formed
/// document yields that document and no diagnostics.
pub proof fn lemma_serialize_parse_round_trip(d: DocumentV)
    requires
        wf_document(d),
    ensures
        crate::document::spec_parse_document(ser_document(d)) == (d, Seq::<Diagnostic>::empty()),
{
    let s = ser_document(d);
    let hs = match d.spdx {
        Some(v) => ser_spdx(v) + seq![NL],
        None => Seq::<u8>::empty(),
    };
    let ht = match d.template {
        Some(t) => ser_template(t) + seq![NL],
        None => Seq::<u8>::empty(),
    };
    let body = ser_decls(d.declarations);
    assert(s == hs + (ht + body)) by {
        assert(s =~= hs + (ht + body));
    }
    assert(matches_at(s, 0, s)) by {
        assert forall|j: int| 0 <= j < s.len() implies s[0 + j] == #[trigger] s[j] by {
        }
    }
    lemma_matches_split(s, 0, hs, ht + body);
    lemma_matches_split(s, hs.len() as int, ht, body);
    let i_t = hs.len() as int;
    let i_b = hs.len() + ht.len();
    if d.declarations.len() > 0 {
        lemma_ser_declaration_line(d.declarations[0]);
        assert(ser_decls(d.declarations)[0] == ser_declaration(d.declarations[0])[0]);
        assert(is_lower(body[0]));
    }

    // SPDX phase
    let empty_d = Seq::<Diagnostic>::empty();
    match d.spdx {
        Some(v) => {
            lemma_ser_spdx_line(v);
            lemma_matches_split(s, 0, ser_spdx(v), seq![NL]);
            let e0 = ser_spdx(v).len() as int;
            assert(s[e0 + 0] == seq![NL][0]);
            assert(s[e0] == NL);
            assert(s[0int + 0] == ser_spdx(v)[0]);
            assert(s[0] == BANG);
            lemma_skip_blanks_here(s, 0);
            lemma_line_end_at(s, 0, ser_spdx(v));
            lemma_spdx_ser_parse(s, 0, e0, v);
            assert(e0 < s.len());
            assert(crate::document::next_line(s, 0) == i_t);
            assert(crate::document::spec_parse_document(s)
                == crate::document::spec_parse_after_spdx(s, Some(v), i_t, empty_d));
        },
        None => {
            assert(hs.len() == 0);
            if s.len() == 0 {
                assert(crate::document::spec_skip_blanks(s, 0) == 0);
            } else {
                if ht.len() > 0 {
                    lemma_ser_template_line(d.template->0);
                    assert(s[0int + 0] == ht[0]);
                    assert(ht[0] == ser_template(d.template->0)[0]);
                    assert(s[0] == AMP);
                    lemma_skip_blanks_here(s, 0);
                } else {
                    assert(s[0int + 0] == body[0]);
                    assert(is_lower(s[0]));
                    lemma_skip_blanks_here(s, 0);
                }
                assert(s[0] != BANG);
            }
            assert(crate::document::spec_parse_document(s)
                == crate::document::spec_parse_after_spdx(s, None, 0, empty_d));
        },
    }
    let sp = d.spdx;

    // template phase
    match d.template {
        Some(t) => {
            lemma_ser_template_line(t);
            lemma_matches_split(s, i_t, ser_template(t), seq![NL]);
            let e1 = i_t + ser_template(t).len();
            assert(s[e1 + 0] == seq![NL][0]);
            assert(s[e1] == NL);
            assert(s[i_t + 0] == ser_template(t)[0]);
            assert(s[i_t] == AMP);
            lemma_skip_blanks_here(s, i_t);
            lemma_line_end_at(s, i_t, ser_template(t));
            lemma_template_ser_parse(s, i_t, e1, t);
            assert(e1 < s.len());
            assert(crate::document::next_line(s, i_t) == i_b);
            assert(crate::document::spec_parse_after_spdx(s, sp, i_t, empty_d)
                == crate::document::spec_parse_after_template(s, sp, Some(t), i_b as int, empty_d));
        },
        None => {
            assert(ht.len() == 0);
            assert(i_t == i_b);
            if i_t == s.len() {
                assert(crate::document::spec_skip_blanks(s, i_t) == i_t);
            } else {
                assert(body.len() > 0);
                assert(s[i_t + 0] == body[0]);
                assert(is_lower(s[i_t]));
                lemma_skip_blanks_here(s, i_t);
                assert(s[i_t] != AMP);
            }
            assert(crate::document::spec_parse_after_spdx(s, sp, i_t, empty_d)
                == crate::document::spec_parse_after_template(s, sp, None, i_b as int, empty_d));
        },
    }

    // statement phase
    lemma_body_ser_parse(s, i_b as int, d.declarations);
    let r = crate::document::spec_parse_document(s);
    assert(r.0 =~= d);
    assert(r.1 =~= Seq::<Diagnostic>::empty());
}

/// Every forma list a successful parse yields is well formed.
proof fn lemma_parse_formas_wf(s: Seq<u8>, i: int, hi: int)
    requires
        0 <= i <= hi <= s.len(),
    ensures
        crate::decl::spec_parse_formas(s, i, hi) matches Ok((l, end)) ==> crate::ast::wf_formas(l)
            && l.len() >= 1,
    decreases hi - i,
{
    crate::ident::lemma_lex_forma(s, i, hi);
    match crate::ident::spec_lex_forma(s, i, hi) {
        Ok((f, e)) => {
            lemma_munch(s, e, hi, CharClass::Space);
            let a = spec_munch(s, e, hi, CharClass::Space);
            if a < hi && s[a] == COMMA {
                lemma_munch(s, a + 1, hi, CharClass::Space);
                let b = spec_munch(s, a + 1, hi, CharClass::Space);
                lemma_parse_formas_wf(s, b, hi);
                match crate::decl::spec_parse_formas(s, b, hi) {
                    Ok((rest, _)) => {
                        assert(forall|k: int|
                            0 <= k < rest.len() ==> (seq![f] + rest)[k + 1] == rest[k]);
                        assert((seq![f] + rest)[0] == f);
                    },
                    Err(_) => {},
                }
            }
        },
        Err(_) => {},
    }
}

/// Every declaration a successful parse yields is well formed.
proof fn lemma_parse_declaration_wf(s: Seq<u8>, lo: int, hi: int)
    requires
        0 <= lo <= hi <= s.len(),
    ensures
        crate::decl::spec_parse_declaration(s, lo, hi) matches Ok(d) ==> wf_declaration(d),
{
    crate::ident::lemma_lex_identifier(s, lo, hi);
    match crate::ident::spec_lex_identifier(s, lo, hi) {
        Ok((id, ie)) => {
            lemma_munch(s, ie, hi, CharClass::Space);
            let p = spec_munch(s, ie, hi, CharClass::Space);
            if p < hi && s[p] == COLON {
                lemma_munch(s, p + 1, hi, CharClass::Space);
                let q = spec_munch(s, p + 1, hi, CharClass::Space);
                if q < hi {
                    lemma_parse_formas_wf(s, q, hi);
                    crate::decl::lemma_parse_formas_bounds(s, q, hi);
                    match crate::decl::spec_parse_formas(s, q, hi) {
                        Ok((domain, de)) => {
                            lemma_munch(s, de, hi, CharClass::Space);
                            let a = spec_munch(s, de, hi, CharClass::Space);
                            if a + 2 <= hi && s[a] == DASH && s[a + 1] == GT {
                                let r = spec_munch(s, a + 2, hi, CharClass::Space);
                                lemma_munch(s, a + 2, hi, CharClass::Space);
                                lemma_parse_formas_wf(s, r, hi);
                            }
                        },
                        Err(_) => {},
                    }
                }
            }
        },
        Err(_) => {},
    }
}

/// Every copyright clause a successful parse yields is well formed, provided
/// the window holds no line feed.
proof fn lemma_parse_copyright_wf(s: Seq<u8>, cs: int, hi: int)
    requires
        0 <= cs <= hi <= s.len(),
        forall|j: int| cs <= j < hi ==> s[j] != NL,
    ensures
        spec_parse_copyright(s, cs, hi) matches Ok(c) ==> wf_copyright(c),
{
    crate::year::lemma_lex_year_wf(s, cs, hi);
    if year_then_owner(s, cs, hi) {
    } else if cs < hi {
        lemma_year_then_owner_window(s, cs, hi);
        assert(s.subrange(cs, hi).len() == hi - cs);
        assert(forall|j: int| 0 <= j < hi - cs ==> s.subrange(cs, hi)[j] == s[cs + j]);
    }
}

/// Every SPDX line a successful parse yields is well formed, provided the
/// window holds no line feed.
proof fn lemma_parse_spdx_wf(s: Seq<u8>, lo: int, hi: int)
    requires
        0 <= lo <= hi <= s.len(),
        forall|j: int| lo <= j < hi ==> s[j] != NL,
    ensures
        spec_parse_spdx(s, lo, hi) matches Ok(v) ==> wf_spdx(v),
{
    if lo + 2 > hi || s[lo + 1] != SP {
    } else {
        let ls = lo + 2;
        lemma_munch(s, ls, hi, CharClass::NotSemi);
        let semi = spec_munch(s, ls, hi, CharClass::NotSemi);
        if semi != ls {
            assert(forall|j: int|
                0 <= j < semi - ls ==> #[trigger] s.subrange(ls, semi)[j] == s[ls + j]);
            assert(wf_license(s.subrange(ls, semi)));
            if semi != hi && semi + 6 <= hi {
                lemma_parse_copyright_wf(s, semi + 6, hi);
            }
        }
    }
}

/// Every template line a successful parse yields is well formed.
proof fn lemma_parse_template_wf(s: Seq<u8>, lo: int, hi: int)
    requires
        0 <= lo <= hi <= s.len(),
    ensures
        spec_parse_template(s, lo, hi) matches Ok(t) ==> wf_template(t),
{
    if lo + 1 >= hi || s[lo + 1] != SP || lo + 2 >= hi {
    } else {
        lemma_munch(s, lo + 2, hi, CharClass::Slug);
        let e = spec_munch(s, lo + 2, hi, CharClass::Slug);
        if e == hi {
            assert(forall|j: int|
                0 <= j < hi - (lo + 2) ==> #[trigger] s.subrange(lo + 2, hi)[j] == s[lo + 2 + j]);
            assert(is_slug_seq(s.subrange(lo + 2, hi)));
        }
    }
}

/// Every declaration the statement phase yields is well formed.
proof fn lemma_parse_body_wf(s: Seq<u8>, i: int)
    requires
        0 <= i <= s.len(),
    ensures
        forall|k: int|
            0 <= k < crate::document::spec_parse_body(s, i).0.len() ==> wf_declaration(
                #[trigger] crate::document::spec_parse_body(s, i).0[k],
            ),
    decreases s.len() - i,
{
    if i < s.len() {
        crate::chars::lemma_munch_range(s, i, s.len() as int, CharClass::NotNewline);
        let e = crate::document::line_end_of(s, i);
        let nxt = crate::document::next_line(s, i);
        lemma_parse_body_wf(s, nxt);
        let rest = crate::document::spec_parse_body(s, nxt);
        if !crate::document::is_blank_range(s, i, e) && is_lower(s[i]) {
            lemma_parse_declaration_wf(s, i, e);
            match crate::decl::spec_parse_declaration(s, i, e) {
                Ok(d) => {
                    assert(forall|k: int|
                        0 <= k < rest.0.len() ==> (seq![d] + rest.0)[k + 1] == rest.0[k]);
                    assert((seq![d] + rest.0)[0] == d);
                },
                Err(_) => {},
            }
        }
    }
}

/// Every document the parser yields is well formed, diagnostics or not: each
/// successfully parsed part satisfies its own well-formedness predicate.
pub proof fn lemma_parse_document_wf(s: Seq<u8>)
    ensures
        wf_document(crate::document::spec_parse_document(s).0),
{
    let i0 = crate::document::spec_skip_blanks(s, 0);
    lemma_skip_blanks_bounds(s, 0);
    let empty_d = Seq::<Diagnostic>::empty();
    if i0 < s.len() && s[i0] == BANG {
        let e0 = crate::document::line_end_of(s, i0);
        lemma_munch(s, i0, s.len() as int, CharClass::NotNewline);
        assert(forall|j: int| i0 <= j < e0 ==> s[j] != NL);
        lemma_parse_spdx_wf(s, i0, e0);
        crate::chars::lemma_munch_range(s, i0, s.len() as int, CharClass::NotNewline);
        let nxt = crate::document::next_line(s, i0);
        match spec_parse_spdx(s, i0, e0) {
            Ok(v) => {
                lemma_after_spdx_wf(s, Some(v), nxt, empty_d);
            },
            Err(g) => {
                lemma_after_spdx_wf(
                    s,
                    None,
                    nxt,
                    seq![crate::ast::spec_diag(crate::ast::ParseError::Grammar(g))],
                );
            },
        }
    } else {
        lemma_after_spdx_wf(s, None, i0, empty_d);
    }
}

/// Bounds of the blank-line skipper.
proof fn lemma_skip_blanks_bounds(s: Seq<u8>, i: int)
    requires
        0 <= i <= s.len(),
    ensures
        i <= crate::document::spec_skip_blanks(s, i) <= s.len(),
    decreases s.len() - i,
{
    if i < s.len() && crate::document::is_blank_range(s, i, crate::document::line_end_of(s, i)) {
        crate::chars::lemma_munch_range(s, i, s.len() as int, CharClass::NotNewline);
        lemma_skip_blanks_bounds(s, crate::document::next_line(s, i));
    }
}

/// The template and statement phases yield only well-formed parts, whatever
/// header and diagnostics they stand behind.
proof fn lemma_after_spdx_wf(s: Seq<u8>, sp: Option<SpdxLineV>, i: int, d: Seq<Diagnostic>)
    requires
        0 <= i <= s.len(),
    ensures
        crate::document::spec_parse_after_spdx(s, sp, i, d).0.spdx == sp,
        match crate::document::spec_parse_after_spdx(s, sp, i, d).0.template {
            Some(t) => wf_template(t),
            None => true,
        },
        forall|k: int|
            0 <= k < crate::document::spec_parse_after_spdx(s, sp, i, d).0.declarations.len()
                ==> wf_declaration(
                #[trigger] crate::document::spec_parse_after_spdx(s, sp, i, d).0.declarations[k],
            ),
{
    let i1 = crate::document::spec_skip_blanks(s, i);
    lemma_skip_blanks_bounds(s, i);
    if i1 < s.len() && s[i1] == AMP {
        let e1 = crate::document::line_end_of(s, i1);
        lemma_munch(s, i1, s.len() as int, CharClass::NotNewline);
        crate::chars::lemma_munch_range(s, i1, s.len() as int, CharClass::NotNewline);
        lemma_parse_template_wf(s, i1, e1);
        lemma_parse_body_wf(s, crate::document::next_line(s, i1));
    } else {
        lemma_parse_body_wf(s, i1);
    }
}

/// Idempotence of the formatter: re-parsing the canonical serialization of
/// any parsed document yields that document again, with no diagnostics.
pub proof fn lemma_format_idempotent(s: Seq<u8>)
    ensures
        crate::document::spec_parse_document(ser_document(crate::document::spec_parse_document(s).0))
            == (crate::document::spec_parse_document(s).0, Seq::<Diagnostic>::empty()),
{
    lemma_parse_document_wf(s);
    lemma_serialize_parse_round_trip(crate::document::spec_parse_document(s).0);
}

/// Number of statement lines (non-blank lines) from `i` on.
pub open spec fn count_statements(s: Seq<u8>, i: int) -> nat
    recommends
        0 <= i <= s.len(),
    decreases s.len() - i,
    via count_statements_decreases
{
    if i >= s.len() {
        0
    } else if crate::document::is_blank_range(s, i, crate::document::line_end_of(s, i)) {
        count_statements(s, crate::document::next_line(s, i))
    } else {
        1 + count_statements(s, crate::document::next_line(s, i))
    }
}

#[via_fn]
proof fn count_statements_decreases(s: Seq<u8>, i: int) {
    if i < s.len() {
        crate::chars::lemma_munch_range(s, i, s.len() as int, CharClass::NotNewline);
    }
}

/// Diagnostics ordered by the positions they point at.
pub open spec fn diags_sorted(ds: Seq<Diagnostic>) -> bool {
    forall|i: int, j: int|
        0 <= i <= j < ds.len() ==> #[trigger] ds[i].spec_offset() <= #[trigger] ds[j].spec_offset()
}

/// A failed forma-list parse points into the window it was given.
proof fn lemma_formas_err_bounds(s: Seq<u8>, i: int, hi: int)
    requires
        0 <= i <= hi <= s.len(),
        hi <= usize::MAX,
    ensures
        crate::decl::spec_parse_formas(s, i, hi) matches Err(er) ==> i <= er.spec_offset() <= hi,
    decreases hi - i,
{
    crate::ident::lemma_lex_forma(s, i, hi);
    match crate::ident::spec_lex_forma(s, i, hi) {
        Ok((f, e)) => {
            lemma_munch(s, e, hi, CharClass::Space);
            let a = spec_munch(s, e, hi, CharClass::Space);
            if a < hi && s[a] == COMMA {
                lemma_munch(s, a + 1, hi, CharClass::Space);
                let b = spec_munch(s, a + 1, hi, CharClass::Space);
                lemma_formas_err_bounds(s, b, hi);
            }
        },
        Err(_) => {},
    }
}

/// A failed declaration parse points into the statement's own window.
proof fn lemma_decl_err_bounds(s: Seq<u8>, lo: int, hi: int)
    requires
        0 <= lo <= hi <= s.len(),
        hi <= usize::MAX,
    ensures
        crate::decl::spec_parse_declaration(s, lo, hi) matches Err(er) ==> lo <= er.spec_offset()
            <= hi,
{
    crate::ident::lemma_lex_identifier(s, lo, hi);
    match crate::ident::spec_lex_identifier(s, lo, hi) {
        Ok((id, ie)) => {
            lemma_munch(s, ie, hi, CharClass::Space);
            let p = spec_munch(s, ie, hi, CharClass::Space);
            if p < hi && s[p] == COLON {
                lemma_munch(s, p + 1, hi, CharClass::Space);
                let q = spec_munch(s, p + 1, hi, CharClass::Space);
                if q < hi {
                    lemma_formas_err_bounds(s, q, hi);
                    crate::decl::lemma_parse_formas_bounds(s, q, hi);
                    match crate::decl::spec_parse_formas(s, q, hi) {
                        Ok((domain, de)) => {
                            lemma_munch(s, de, hi, CharClass::Space);
                            let a = spec_munch(s, de, hi, CharClass::Space);
                            if a + 2 <= hi && s[a] == DASH && s[a + 1] == GT {
                                lemma_munch(s, a + 2, hi, CharClass::Space);
                                let r = spec_munch(s, a + 2, hi, CharClass::Space);
                                lemma_formas_err_bounds(s, r, hi);
                                crate::decl::lemma_parse_formas_bounds(s, r, hi);
                                match crate::decl::spec_parse_formas(s, r, hi) {
                                    Ok((range, re)) => {
                                        lemma_munch(s, re, hi, CharClass::Space);
                                    },
                                    Err(_) => {},
                                }
                            }
                        },
                        Err(_) => {},
                    }
                }
            }
        },
        Err(_) => {},
    }
}

/// A failed SPDX parse points into the line's own window.
proof fn lemma_spdx_err_bounds(s: Seq<u8>, lo: int, hi: int)
    requires
        0 <= lo <= hi <= s.len(),
        hi <= usize::MAX,
        lo < hi,
    ensures
        spec_parse_spdx(s, lo, hi) matches Err(er) ==> lo <= er.offset <= hi,
{
    if lo + 2 > hi || s[lo + 1] != SP {
    } else {
        lemma_munch(s, lo + 2, hi, CharClass::NotSemi);
    }
}

/// A failed template parse points into the line's own window.
proof fn lemma_template_err_bounds(s: Seq<u8>, lo: int, hi: int)
    requires
        0 <= lo <= hi <= s.len(),
        hi <= usize::MAX,
        lo < hi,
    ensures
        spec_parse_template(s, lo, hi) matches Err(er) ==> lo <= er.offset <= hi,
{
    if lo + 1 >= hi || s[lo + 1] != SP || lo + 2 >= hi {
    } else {
        lemma_munch(s, lo + 2, hi, CharClass::Slug);
    }
}

/// Statement-phase diagnostics are sorted and point at or after the phase's
/// starting offset, inside the buffer.
proof fn lemma_body_diags_sorted(s: Seq<u8>, i: int)
    requires
        0 <= i <= s.len(),
        s.len() <= usize::MAX,
    ensures
        diags_sorted(crate::document::spec_parse_body(s, i).1),
        forall|k: int|
            0 <= k < crate::document::spec_parse_body(s, i).1.len() ==> i <= #[trigger] crate::document::spec_parse_body(
                s,
                i,
            ).1[k].spec_offset() <= s.len(),
    decreases s.len() - i,
{
    if i < s.len() {
        lemma_munch(s, i, s.len() as int, CharClass::NotNewline);
        let e = crate::document::line_end_of(s, i);
        let nxt = crate::document::next_line(s, i);
        lemma_body_diags_sorted(s, nxt);
        let rest = crate::document::spec_parse_body(s, nxt);
        if !crate::document::is_blank_range(s, i, e) {
            if is_lower(s[i]) {
                lemma_decl_err_bounds(s, i, e);
                match crate::decl::spec_parse_declaration(s, i, e) {
                    Ok(_) => {},
                    Err(er) => {
                        let d = crate::ast::spec_diag(er);
                        let ds = seq![d] + rest.1;
                        assert(ds[0] == d);
                        assert(forall|k: int| 0 <= k < rest.1.len() ==> ds[k + 1] == rest.1[k]);
                        assert forall|a: int, b: int|
                            0 <= a <= b < ds.len() implies #[trigger] ds[a].spec_offset()
                            <= #[trigger] ds[b].spec_offset() by {
                            if a > 0 {
                                assert(ds[a] == rest.1[a - 1]);
                                assert(ds[b] == rest.1[b - 1]);
                            } else if b > 0 {
                                assert(ds[b] == rest.1[b - 1]);
                                assert(nxt <= rest.1[b - 1].spec_offset());
                            }
                        }
                    },
                }
            } else {
                let d = crate::ast::spec_diag(
                    crate::ast::ParseError::Grammar(
                        crate::ast::GrammarError {
                            kind: crate::ast::GrammarErrorKind::UnrecognizedStatement,
                            offset: i as usize,
                        },
                    ),
                );
                let ds = seq![d] + rest.1;
                assert(ds[0] == d);
                assert(forall|k: int| 0 <= k < rest.1.len() ==> ds[k + 1] == rest.1[k]);
                assert forall|a: int, b: int|
                    0 <= a <= b < ds.len() implies #[trigger] ds[a].spec_offset()
                    <= #[trigger] ds[b].spec_offset() by {
                    if a > 0 {
                        assert(ds[a] == rest.1[a - 1]);
                        assert(ds[b] == rest.1[b - 1]);
                    } else if b > 0 {
                        assert(ds[b] == rest.1[b - 1]);
                        assert(nxt <= rest.1[b - 1].spec_offset());
                    }
                }
            }
        }
    }
}

/// The diagnostics of a parse come out sorted by the source positions they
/// point at.
pub proof fn lemma_diagnostics_sorted(s: Seq<u8>)
    requires
        s.len() <= usize::MAX,
    ensures
        diags_sorted(crate::document::spec_parse_document(s).1),
{
    let i0 = crate::document::spec_skip_blanks(s, 0);
    lemma_skip_blanks_bounds(s, 0);
    let empty_d = Seq::<Diagnostic>::empty();
    if i0 < s.len() && s[i0] == BANG {
        let e0 = crate::document::line_end_of(s, i0);
        lemma_munch(s, i0, s.len() as int, CharClass::NotNewline);
        crate::chars::lemma_munch_range(s, i0, s.len() as int, CharClass::NotNewline);
        lemma_spdx_err_bounds(s, i0, e0);
        let nxt = crate::document::next_line(s, i0);
        match spec_parse_spdx(s, i0, e0) {
            Ok(v) => {
                lemma_after_spdx_sorted(s, Some(v), nxt, empty_d);
            },
            Err(g) => {
                let d0 = crate::ast::spec_diag(crate::ast::ParseError::Grammar(g));
                lemma_after_spdx_sorted(s, None, nxt, seq![d0]);
            },
        }
    } else {
        lemma_after_spdx_sorted(s, None, i0, empty_d);
    }
}

/// Diagnostics of the template and statement phases, behind sorted header
/// diagnostics that point no later than the phase's starting offset, come out
/// sorted as a whole.
proof fn lemma_after_spdx_sorted(s: Seq<u8>, sp: Option<SpdxLineV>, i: int, d: Seq<Diagnostic>)
    requires
        0 <= i <= s.len(),
        s.len() <= usize::MAX,
        diags_sorted(d),
        forall|k: int| 0 <= k < d.len() ==> #[trigger] d[k].spec_offset() <= i,
    ensures
        diags_sorted(crate::document::spec_parse_after_spdx(s, sp, i, d).1),
{
    let i1 = crate::document::spec_skip_blanks(s, i);
    lemma_skip_blanks_bounds(s, i);
    if i1 < s.len() && s[i1] == AMP {
        let e1 = crate::document::line_end_of(s, i1);
        lemma_munch(s, i1, s.len() as int, CharClass::NotNewline);
        crate::chars::lemma_munch_range(s, i1, s.len() as int, CharClass::NotNewline);
        lemma_template_err_bounds(s, i1, e1);
        let nxt = crate::document::next_line(s, i1);
        lemma_body_diags_sorted(s, nxt);
        let body = crate::document::spec_parse_body(s, nxt);
        match spec_parse_template(s, i1, e1) {
            Ok(_) => {
                let ds = d + body.1;
                assert(forall|k: int| 0 <= k < d.len() ==> ds[k] == d[k]);
                assert(forall|k: int| 0 <= k < body.1.len() ==> ds[d.len() + k] == body.1[k]);
                assert forall|a: int, b: int|
                    0 <= a <= b < ds.len() implies #[trigger] ds[a].spec_offset()
                    <= #[trigger] ds[b].spec_offset() by {
                    if b >= d.len() {
                        assert(ds[b] == body.1[b - d.len()]);
                        assert(nxt <= body.1[b - d.len()].spec_offset());
                        if a >= d.len() {
                            assert(ds[a] == body.1[a - d.len()]);
                        }
                    }
                }
            },
            Err(g) => {
                let d1 = crate::ast::spec_diag(crate::ast::ParseError::Grammar(g));
                let ds = (d + seq![d1]) + body.1;
                let dh = d + seq![d1];
                assert(dh[d.len() as int] == d1);
                assert(forall|k: int| 0 <= k < d.len() ==> dh[k] == d[k]);
                assert(forall|k: int| 0 <= k < dh.len() ==> ds[k] == dh[k]);
                assert(forall|k: int| 0 <= k < body.1.len() ==> ds[dh.len() + k] == body.1[k]);
                assert forall|a: int, b: int|
                    0 <= a <= b < ds.len() implies #[trigger] ds[a].spec_offset()
                    <= #[trigger] ds[b].spec_offset() by {
                    if b >= dh.len() {
                        assert(ds[b] == body.1[b - dh.len()]);
                        assert(nxt <= body.1[b - dh.len()].spec_offset());
                        if a >= dh.len() {
                            assert(ds[a] == body.1[a - dh.len()]);
                        } else if a == d.len() {
                            assert(ds[a] == d1);
                        }
                    } else if a < d.len() && b == d.len() {
                        assert(ds[a] == d[a]);
                        assert(ds[b] == d1);
                        assert(i1 <= d1.spec_offset());
                    } else if a == d.len() && b == d.len() {
                    }
                }
            },
        }
    } else {
        lemma_body_diags_sorted(s, i1);
        let body = crate::document::spec_parse_body(s, i1);
        let ds = d + body.1;
        assert(forall|k: int| 0 <= k < d.len() ==> ds[k] == d[k]);
        assert(forall|k: int| 0 <= k < body.1.len() ==> ds[d.len() + k] == body.1[k]);
        assert forall|a: int, b: int|
            0 <= a <= b < ds.len() implies #[trigger] ds[a].spec_offset() <= #[trigger] ds[b].spec_offset() by {
            if b >= d.len() {
                assert(ds[b] == body.1[b - d.len()]);
                assert(i1 <= body.1[b - d.len()].spec_offset());
                if a >= d.len() {
                    assert(ds[a] == body.1[a - d.len()]);
                }
            }
        }
    }
}

/// Error aggregation: every statement line yields exactly one declaration or
/// exactly one diagnostic, so a document with several independently malformed
/// statements surfaces them all in one pass, one diagnostic each.
pub proof fn lemma_one_outcome_per_statement(s: Seq<u8>, i: int)
    requires
        0 <= i <= s.len(),
    ensures
        crate::document::spec_parse_body(s, i).0.len() + crate::document::spec_parse_body(
            s,
            i,
        ).1.len() == count_statements(s, i),
    decreases s.len() - i,
{
    if i < s.len() {
        crate::chars::lemma_munch_range(s, i, s.len() as int, CharClass::NotNewline);
        lemma_one_outcome_per_statement(s, crate::document::next_line(s, i));
    }
}

} // verus!
