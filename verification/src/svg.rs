//! Text helpers of the SVG emitter: attribute escaping and base64 for
//! embedded images.

use vstd::prelude::*;
use crate::text::{push_char, push_str};

verus! {

/// The escape of one character in SVG text and attribute values.
pub open spec fn esc_char(c: char) -> Seq<char> {
    if c == '&' {
        "&amp;"@
    } else if c == '<' {
        "&lt;"@
    } else if c == '>' {
        "&gt;"@
    } else if c == '"' {
        "&quot;"@
    } else {
        seq![c]
    }
}

/// `s` with `&`, `<`, `>` and `"` replaced by their entities.
pub open spec fn escaped(s: Seq<char>) -> Seq<char>
    decreases s.len(),
{
    if s.len() == 0 {
        Seq::empty()
    } else {
        escaped(s.drop_last()) + esc_char(s.last())
    }
}

/// Escaped text holds no `<`, `>` or `"`: it cannot open a tag or close an
/// attribute value.
pub proof fn lemma_escaped_has_no_markup(s: Seq<char>)
    ensures
        forall|i: int|
            0 <= i < escaped(s).len() ==> #[trigger] escaped(s)[i] != '<' && escaped(s)[i] != '>'
                && escaped(s)[i] != '"',
    decreases s.len(),
{
    reveal_strlit("&amp;");
    reveal_strlit("&lt;");
    reveal_strlit("&gt;");
    reveal_strlit("&quot;");
    if s.len() > 0 {
        lemma_escaped_has_no_markup(s.drop_last());
        let p = escaped(s.drop_last());
        let e = esc_char(s.last());
        assert forall|i: int| 0 <= i < escaped(s).len() implies #[trigger] escaped(s)[i] != '<'
            && escaped(s)[i] != '>' && escaped(s)[i] != '"' by {
            if i < p.len() {
                assert(escaped(s)[i] == p[i]);
            } else {
                assert(escaped(s)[i] == e[i - p.len()]);
            }
        }
    }
}

/// Escaping distributes over concatenation.
proof fn lemma_escaped_concat(a: Seq<char>, b: Seq<char>)
    ensures
        escaped(a + b) == escaped(a) + escaped(b),
    decreases b.len(),
{
    if b.len() == 0 {
        assert(a + b =~= a);
        assert(escaped(a) + escaped(b) =~= escaped(a));
    } else {
        assert((a + b).drop_last() =~= a + b.drop_last());
        assert((a + b).last() == b.last());
        lemma_escaped_concat(a, b.drop_last());
        assert(escaped(a + b) =~= escaped(a) + escaped(b));
    }
}

/// `t` holds one of the four entities `&amp;`, `&lt;`, `&gt;`, `&quot;` at `i`.
pub open spec fn entity_at(t: Seq<char>, i: int) -> bool {
    ||| (i + 5 <= t.len() && t.subrange(i, i + 5) == "&amp;"@)
    ||| (i + 4 <= t.len() && t.subrange(i, i + 4) == "&lt;"@)
    ||| (i + 4 <= t.len() && t.subrange(i, i + 4) == "&gt;"@)
    ||| (i + 6 <= t.len() && t.subrange(i, i + 6) == "&quot;"@)
}

/// Entity decoding, read left to right: each of the four entities becomes
/// its character, every other character is kept.
pub open spec fn unescaped(t: Seq<char>) -> Seq<char>
    decreases t.len(),
{
    if t.len() == 0 {
        Seq::empty()
    } else if t.len() >= 5 && t.subrange(0, 5) == "&amp;"@ {
        seq!['&'] + unescaped(t.subrange(5, t.len() as int))
    } else if t.len() >= 4 && t.subrange(0, 4) == "&lt;"@ {
        seq!['<'] + unescaped(t.subrange(4, t.len() as int))
    } else if t.len() >= 4 && t.subrange(0, 4) == "&gt;"@ {
        seq!['>'] + unescaped(t.subrange(4, t.len() as int))
    } else if t.len() >= 6 && t.subrange(0, 6) == "&quot;"@ {
        seq!['"'] + unescaped(t.subrange(6, t.len() as int))
    } else {
        seq![t[0]] + unescaped(t.subrange(1, t.len() as int))
    }
}

proof fn lemma_unescape_step(c: char, rest: Seq<char>)
    ensures
        unescaped(esc_char(c) + rest) == seq![c] + unescaped(rest),
{
    reveal_strlit("&amp;");
    reveal_strlit("&lt;");
    reveal_strlit("&gt;");
    reveal_strlit("&quot;");
    let t = esc_char(c) + rest;
    let k = esc_char(c).len() as int;
    assert(t.subrange(k, t.len() as int) =~= rest);
    if c == '&' {
        assert(t.subrange(0, 5) =~= "&amp;"@);
    } else if c == '<' {
        assert(t.subrange(0, 4) =~= "&lt;"@);
        assert(t[1] == 'l');
        if t.len() >= 5 {
            assert(t.subrange(0, 5)[1] != "&amp;"@[1]);
        }
    } else if c == '>' {
        assert(t.subrange(0, 4) =~= "&gt;"@);
        assert(t[1] == 'g');
        if t.len() >= 5 {
            assert(t.subrange(0, 5)[1] != "&amp;"@[1]);
        }
        assert(t.subrange(0, 4)[1] != "&lt;"@[1]);
    } else if c == '"' {
        assert(t.subrange(0, 6) =~= "&quot;"@);
        assert(t[1] == 'q');
        assert(t.subrange(0, 5)[1] != "&amp;"@[1]);
        assert(t.subrange(0, 4)[1] != "&lt;"@[1]);
        assert(t.subrange(0, 4)[1] != "&gt;"@[1]);
    } else {
        assert(t[0] == c);
        if t.len() >= 5 {
            assert(t.subrange(0, 5)[0] == c);
        }
        if t.len() >= 4 {
            assert(t.subrange(0, 4)[0] == c);
        }
        if t.len() >= 6 {
            assert(t.subrange(0, 6)[0] == c);
        }
    }
}

/// Decoding the entities of escaped text gives the text back.
pub proof fn law_escape_round_trip(s: Seq<char>)
    ensures
        unescaped(escaped(s)) == s,
    decreases s.len(),
{
    if s.len() > 0 {
        let c = s[0];
        let rest = s.subrange(1, s.len() as int);
        assert(s =~= seq![c] + rest);
        lemma_escaped_concat(seq![c], rest);
        assert(seq![c].drop_last() =~= Seq::<char>::empty());
        assert(escaped(Seq::<char>::empty()) =~= Seq::<char>::empty());
        assert(seq![c].last() == c);
        assert(escaped(seq![c]) =~= esc_char(c));
        law_escape_round_trip(rest);
        lemma_unescape_step(c, escaped(rest));
    } else {
        assert(escaped(s) =~= Seq::<char>::empty());
    }
}

/// `t` with each occurrence of `pat` replaced by `rep`, scanning left to
/// right and going on after each replaced occurrence, as `str::replace` does.
pub open spec fn replace_all(t: Seq<char>, pat: Seq<char>, rep: Seq<char>) -> Seq<char>
    decreases t.len(),
{
    if t.len() == 0 {
        Seq::empty()
    } else if 0 < pat.len() <= t.len() && t.take(pat.len() as int) == pat {
        rep + replace_all(t.skip(pat.len() as int), pat, rep)
    } else {
        seq![t[0]] + replace_all(t.skip(1), pat, rep)
    }
}

/// Undoing the escapes by replacing `&lt;`, `&gt;`, `&quot;` and then
/// `&amp;` by the characters they stand for.
pub open spec fn unescaped_by_replacing(t: Seq<char>) -> Seq<char> {
    replace_all(
        replace_all(replace_all(replace_all(t, "&lt;"@, "<"@), "&gt;"@, ">"@), "&quot;"@, "\""@),
        "&amp;"@,
        "&"@,
    )
}

/// No `&` in `q`.
pub open spec fn no_amp(q: Seq<char>) -> bool {
    forall|i: int| 0 <= i < q.len() ==> q[i] != '&'
}

/// A piece of text that is `pat`, or in which no occurrence of `pat` can
/// start: its only possible `&` is the first character, and the next
/// character differs from the one after `&` in `pat`.
pub open spec fn piece_ok(p: Seq<char>, pat: Seq<char>) -> bool {
    ||| p == pat
    ||| (p.len() >= 1 && no_amp(p.drop_first()) && (p[0] == '&' ==> (p.len() >= 2 && p[1] != pat[1])))
}

pub open spec fn swap_piece(p: Seq<char>, pat: Seq<char>, rep: Seq<char>) -> Seq<char> {
    if p == pat { rep } else { p }
}

proof fn lemma_replace_no_match(p: Seq<char>, u: Seq<char>, pat: Seq<char>, rep: Seq<char>)
    requires
        pat.len() >= 2,
        pat[0] == '&',
        p.len() >= 1,
        no_amp(p.drop_first()),
        p[0] == '&' ==> (p.len() >= 2 && p[1] != pat[1]),
    ensures
        replace_all(p + u, pat, rep) == p + replace_all(u, pat, rep),
    decreases p.len(),
{
    let t = p + u;
    if pat.len() <= t.len() && t.take(pat.len() as int) == pat {
        assert(t.take(pat.len() as int)[0] == t[0]);
        if p[0] == '&' {
            assert(t.take(pat.len() as int)[1] == t[1]);
        }
    }
    assert(t.skip(1) =~= p.drop_first() + u);
    if p.len() == 1 {
        assert(p.drop_first() + u =~= u);
        assert(p + replace_all(u, pat, rep) =~= seq![t[0]] + replace_all(u, pat, rep));
    } else {
        let q = p.drop_first();
        assert(q[0] != '&');
        assert(no_amp(q.drop_first())) by {
            assert forall|i: int| 0 <= i < q.drop_first().len() implies q.drop_first()[i] != '&' by {
                assert(q.drop_first()[i] == q[i + 1]);
            }
        }
        lemma_replace_no_match(q, u, pat, rep);
        assert(p + replace_all(u, pat, rep) =~= seq![t[0]] + (q + replace_all(u, pat, rep)));
    }
}

/// Replacing `pat` in text made of pieces, none of which lets an occurrence
/// start inside it, replaces exactly the pieces that are `pat`.
proof fn lemma_replace_pieces(ps: Seq<Seq<char>>, pat: Seq<char>, rep: Seq<char>)
    requires
        pat.len() >= 2,
        pat[0] == '&',
        forall|i: int| 0 <= i < ps.len() ==> piece_ok(#[trigger] ps[i], pat),
    ensures
        replace_all(ps.flatten(), pat, rep) == ps.map_values(|p: Seq<char>| swap_piece(p, pat, rep)).flatten(),
    decreases ps.len(),
{
    let mapped = ps.map_values(|p: Seq<char>| swap_piece(p, pat, rep));
    if ps.len() == 0 {
        assert(mapped.len() == 0);
    } else {
        let rest = ps.drop_first();
        assert forall|i: int| 0 <= i < rest.len() implies piece_ok(#[trigger] rest[i], pat) by {
            assert(rest[i] == ps[i + 1]);
        }
        lemma_replace_pieces(rest, pat, rep);
        assert(mapped.drop_first() =~= rest.map_values(|p: Seq<char>| swap_piece(p, pat, rep)));
        let t = ps.flatten();
        assert(t == ps[0] + rest.flatten());
        assert(piece_ok(ps[0], pat));
        if ps[0] == pat {
            assert(t.take(pat.len() as int) =~= pat);
            assert(t.skip(pat.len() as int) =~= rest.flatten());
        } else {
            lemma_replace_no_match(ps[0], rest.flatten(), pat, rep);
        }
    }
}

pub open spec fn stage1(c: char) -> Seq<char> {
    if c == '<' { seq!['<'] } else { esc_char(c) }
}

pub open spec fn stage2(c: char) -> Seq<char> {
    if c == '<' || c == '>' { seq![c] } else { esc_char(c) }
}

pub open spec fn stage3(c: char) -> Seq<char> {
    if c == '&' { "&amp;"@ } else { seq![c] }
}

proof fn lemma_escaped_flat(s: Seq<char>)
    ensures
        escaped(s) == s.map_values(|c: char| esc_char(c)).flatten(),
    decreases s.len(),
{
    let m = s.map_values(|c: char| esc_char(c));
    m.lemma_flatten_and_flatten_alt_are_equivalent();
    lemma_escaped_flat_alt(s);
}

proof fn lemma_escaped_flat_alt(s: Seq<char>)
    ensures
        escaped(s) == s.map_values(|c: char| esc_char(c)).flatten_alt(),
    decreases s.len(),
{
    if s.len() > 0 {
        lemma_escaped_flat_alt(s.drop_last());
        assert(s.map_values(|c: char| esc_char(c)).drop_last() =~= s.drop_last().map_values(|c: char| esc_char(c)));
    } else {
        assert(s.map_values(|c: char| esc_char(c)).len() == 0);
    }
}

proof fn lemma_flatten_singles(s: Seq<char>)
    ensures
        s.map_values(|c: char| seq![c]).flatten() == s,
    decreases s.len(),
{
    if s.len() > 0 {
        lemma_flatten_singles(s.drop_first());
        assert(s.map_values(|c: char| seq![c]).drop_first() =~= s.drop_first().map_values(|c: char| seq![c]));
        assert(seq![s[0]] + s.drop_first() =~= s);
    } else {
        assert(s.map_values(|c: char| seq![c]).len() == 0);
    }
}

proof fn lemma_entity_chars()
    ensures
        "&amp;"@ =~= seq!['&', 'a', 'm', 'p', ';'],
        "&lt;"@ =~= seq!['&', 'l', 't', ';'],
        "&gt;"@ =~= seq!['&', 'g', 't', ';'],
        "&quot;"@ =~= seq!['&', 'q', 'u', 'o', 't', ';'],
        "<"@ =~= seq!['<'],
        ">"@ =~= seq!['>'],
        "\""@ =~= seq!['"'],
        "&"@ =~= seq!['&'],
{
    reveal_strlit("&amp;");
    reveal_strlit("&lt;");
    reveal_strlit("&gt;");
    reveal_strlit("&quot;");
    reveal_strlit("<");
    reveal_strlit(">");
    reveal_strlit("\"");
    reveal_strlit("&");
}

proof fn lemma_no_amp_tail(p: Seq<char>)
    requires
        p.len() >= 1,
        forall|i: int| 1 <= i < p.len() ==> p[i] != '&',
    ensures
        no_amp(p.drop_first()),
{
    assert forall|i: int| 0 <= i < p.drop_first().len() implies p.drop_first()[i] != '&' by {
        assert(p.drop_first()[i] == p[i + 1]);
    }
}

/// Replacing `&lt;`, `&gt;`, `&quot;` and then `&amp;` in escaped text by
/// the characters they stand for gives the text back.
pub proof fn law_escape_undone_by_replacing(s: Seq<char>)
    ensures
        unescaped_by_replacing(escaped(s)) == s,
{
    lemma_entity_chars();
    let amp = seq!['&', 'a', 'm', 'p', ';'];
    let lt = seq!['&', 'l', 't', ';'];
    let gt = seq!['&', 'g', 't', ';'];
    let quot = seq!['&', 'q', 'u', 'o', 't', ';'];
    lemma_no_amp_tail(amp);
    lemma_no_amp_tail(lt);
    lemma_no_amp_tail(gt);
    lemma_no_amp_tail(quot);
    assert forall|c: char| #![trigger seq![c]] c != '&' ==> no_amp(seq![c].drop_first()) by {
        assert(seq![c].drop_first().len() == 0);
    }
    let p0 = s.map_values(|c: char| esc_char(c));
    let p1 = s.map_values(|c: char| stage1(c));
    let p2 = s.map_values(|c: char| stage2(c));
    let p3 = s.map_values(|c: char| stage3(c));
    let p4 = s.map_values(|c: char| seq![c]);
    lemma_escaped_flat(s);
    // Step 1: `&lt;`.
    assert forall|i: int| 0 <= i < p0.len() implies piece_ok(#[trigger] p0[i], lt) by {
        let c = s[i];
        if c != '&' && c != '<' && c != '>' && c != '"' {
            assert(no_amp(seq![c].drop_first()));
        }
    }
    lemma_replace_pieces(p0, lt, seq!['<']);
    assert(p0.map_values(|p: Seq<char>| swap_piece(p, lt, seq!['<'])) =~= p1) by {
        assert forall|i: int| 0 <= i < p1.len() implies p0.map_values(|p: Seq<char>| swap_piece(p, lt, seq!['<']))[i]
            == p1[i] by {
            let c = s[i];
            if c == '&' {
                assert(amp != lt);
            } else if c == '>' {
                assert(gt[1] != lt[1]);
            } else if c == '"' {
                assert(quot != lt);
            } else if c != '<' {
                assert(seq![c] != lt);
            }
        }
    }
    // Step 2: `&gt;`.
    assert forall|i: int| 0 <= i < p1.len() implies piece_ok(#[trigger] p1[i], gt) by {
        let c = s[i];
        if c != '&' && c != '>' && c != '"' {
            assert(no_amp(seq![c].drop_first()));
        }
    }
    lemma_replace_pieces(p1, gt, seq!['>']);
    assert(p1.map_values(|p: Seq<char>| swap_piece(p, gt, seq!['>'])) =~= p2) by {
        assert forall|i: int| 0 <= i < p2.len() implies p1.map_values(|p: Seq<char>| swap_piece(p, gt, seq!['>']))[i]
            == p2[i] by {
            let c = s[i];
            if c == '&' {
                assert(amp != gt);
            } else if c == '"' {
                assert(quot != gt);
            } else if c != '>' {
                assert(seq![c] != gt);
            }
        }
    }
    // Step 3: `&quot;`.
    assert forall|i: int| 0 <= i < p2.len() implies piece_ok(#[trigger] p2[i], quot) by {
        let c = s[i];
        if c != '&' && c != '"' {
            assert(no_amp(seq![c].drop_first()));
        }
    }
    lemma_replace_pieces(p2, quot, seq!['"']);
    assert(p2.map_values(|p: Seq<char>| swap_piece(p, quot, seq!['"'])) =~= p3) by {
        assert forall|i: int| 0 <= i < p3.len() implies p2.map_values(|p: Seq<char>| swap_piece(p, quot, seq!['"']))[i]
            == p3[i] by {
            let c = s[i];
            if c == '&' {
                assert(amp != quot);
            } else if c != '"' {
                assert(seq![c] != quot);
            }
        }
    }
    // Step 4: `&amp;`.
    assert forall|i: int| 0 <= i < p3.len() implies piece_ok(#[trigger] p3[i], amp) by {
        let c = s[i];
        if c != '&' {
            assert(no_amp(seq![c].drop_first()));
        }
    }
    lemma_replace_pieces(p3, amp, seq!['&']);
    assert(p3.map_values(|p: Seq<char>| swap_piece(p, amp, seq!['&'])) =~= p4) by {
        assert forall|i: int| 0 <= i < p4.len() implies p3.map_values(|p: Seq<char>| swap_piece(p, amp, seq!['&']))[i]
            == p4[i] by {
            let c = s[i];
            if c != '&' {
                assert(seq![c] != amp);
            }
        }
    }
    lemma_flatten_singles(s);
}

/// Every `&` in escaped text starts one of the four entities.
pub proof fn law_escaped_ampersands_start_entities(s: Seq<char>)
    ensures
        forall|i: int| 0 <= i < escaped(s).len() && #[trigger] escaped(s)[i] == '&' ==> entity_at(escaped(s), i),
    decreases s.len(),
{
    reveal_strlit("&amp;");
    reveal_strlit("&lt;");
    reveal_strlit("&gt;");
    reveal_strlit("&quot;");
    if s.len() > 0 {
        law_escaped_ampersands_start_entities(s.drop_last());
        let p = escaped(s.drop_last());
        let e = esc_char(s.last());
        let t = escaped(s);
        assert(t == p + e);
        assert forall|i: int| 0 <= i < t.len() && #[trigger] t[i] == '&' implies entity_at(t, i) by {
            if i < p.len() {
                assert(p[i] == '&');
                assert(entity_at(p, i));
                if i + 5 <= p.len() {
                    assert(t.subrange(i, i + 5) =~= p.subrange(i, i + 5));
                }
                if i + 4 <= p.len() {
                    assert(t.subrange(i, i + 4) =~= p.subrange(i, i + 4));
                }
                if i + 6 <= p.len() {
                    assert(t.subrange(i, i + 6) =~= p.subrange(i, i + 6));
                }
            } else {
                assert(t[i] == e[i - p.len()]);
                assert(i == p.len());
                assert(t.subrange(i, t.len() as int) =~= e);
            }
        }
    }
}

/// Escape `s` for SVG text and attribute values.
pub fn esc(s: &str) -> (r: String)
    ensures
        r@ == escaped(s@),
{
    let mut out = String::new();
    let n = s.unicode_len();
    let mut i: usize = 0;
    while i < n
        invariant
            n == s@.len(),
            i <= n,
            out@ == escaped(s@.take(i as int)),
        decreases n - i,
    {
        let c = s.get_char(i);
        assert(s@.take(i + 1).drop_last() =~= s@.take(i as int));
        if c == '&' {
            push_str(&mut out, "&amp;");
        } else if c == '<' {
            push_str(&mut out, "&lt;");
        } else if c == '>' {
            push_str(&mut out, "&gt;");
        } else if c == '"' {
            push_str(&mut out, "&quot;");
        } else {
            push_char(&mut out, c);
        }
        i = i + 1;
    }
    assert(s@.take(n as int) =~= s@);
    out
}

/// The base64 digit for `n < 64`: `A`-`Z`, `a`-`z`, `0`-`9`, `+`, `/`.
pub open spec fn b64_digit(n: int) -> char {
    if n < 26 {
        (65 + n) as char
    } else if n < 52 {
        (97 + n - 26) as char
    } else if n < 62 {
        (48 + n - 52) as char
    } else if n == 62 {
        '+'
    } else {
        '/'
    }
}

/// The four characters encoding a group of `len` (1 to 3) bytes `b0 b1 b2`
/// (missing bytes are 0); `=` pads a short group.
pub open spec fn b64_group(b0: u8, b1: u8, b2: u8, len: int) -> Seq<char> {
    let n = b0 as int * 65536 + b1 as int * 256 + b2 as int;
    seq![
        b64_digit((n / 262144) % 64),
        b64_digit((n / 4096) % 64),
        if len > 1 { b64_digit((n / 64) % 64) } else { '=' },
        if len > 2 { b64_digit(n % 64) } else { '=' },
    ]
}

/// The encoding of the first `k` complete three-byte groups of `data`.
pub open spec fn b64_full_groups(data: Seq<u8>, k: int) -> Seq<char>
    decreases k,
{
    if k <= 0 {
        Seq::empty()
    } else {
        b64_full_groups(data, k - 1) + b64_group(
            data[3 * (k - 1)],
            data[3 * (k - 1) + 1],
            data[3 * (k - 1) + 2],
            3,
        )
    }
}

/// Standard base64 (RFC 4648, with padding) of `data`.
pub open spec fn base64(data: Seq<u8>) -> Seq<char> {
    let q = data.len() as int / 3;
    let r = data.len() as int % 3;
    b64_full_groups(data, q) + if r == 0 {
        Seq::empty()
    } else {
        b64_group(data[3 * q], if r > 1 { data[3 * q + 1] } else { 0u8 }, 0u8, r)
    }
}

proof fn lemma_b64_full_groups_len(data: Seq<u8>, k: int)
    requires
        k >= 0,
    ensures
        b64_full_groups(data, k).len() == 4 * k,
    decreases k,
{
    if k > 0 {
        lemma_b64_full_groups_len(data, k - 1);
    }
}

/// Base64 output has four characters for every started group of three
/// input bytes.
pub proof fn lemma_base64_len(data: Seq<u8>)
    ensures
        base64(data).len() == (data.len() + 2) / 3 * 4,
{
    let n = data.len() as int;
    let q = n / 3;
    let r = n % 3;
    lemma_b64_full_groups_len(data, q);
    assert(n == 3 * q + r);
    assert((n + 2) / 3 == q + if r == 0 { 0int } else { 1int }) by (nonlinear_arith)
        requires
            n == 3 * q + r,
            0 <= r < 3,
    {
    }
}

/// The characters of the base64 alphabet.
pub open spec fn is_b64_digit(c: char) -> bool {
    ('A' <= c && c <= 'Z') || ('a' <= c && c <= 'z') || ('0' <= c && c <= '9') || c == '+' || c == '/'
}

/// The value of a base64 digit; `=` (padding) and other characters count 0.
pub open spec fn b64_value(c: char) -> int {
    if 'A' <= c && c <= 'Z' {
        c as int - 65
    } else if 'a' <= c && c <= 'z' {
        c as int - 97 + 26
    } else if '0' <= c && c <= '9' {
        c as int - 48 + 52
    } else if c == '+' {
        62
    } else if c == '/' {
        63
    } else {
        0
    }
}

/// The bytes one group of four characters stands for: three, or fewer when
/// the group ends in `=` padding.
pub open spec fn b64_group_bytes(g: Seq<char>) -> Seq<u8> {
    let n = b64_value(g[0]) * 262144 + b64_value(g[1]) * 4096 + b64_value(g[2]) * 64 + b64_value(g[3]);
    let all = seq![(n / 65536 % 256) as u8, (n / 256 % 256) as u8, (n % 256) as u8];
    if g[2] == '=' {
        all.take(1)
    } else if g[3] == '=' {
        all.take(2)
    } else {
        all
    }
}

/// Standard base64 decoding, group by group.
pub open spec fn base64_decoded(t: Seq<char>) -> Seq<u8>
    decreases t.len(),
{
    if t.len() < 4 {
        Seq::empty()
    } else {
        base64_decoded(t.subrange(0, t.len() - 4)) + b64_group_bytes(t.subrange(t.len() - 4, t.len() as int))
    }
}

proof fn lemma_b64_digit(n: int)
    requires
        0 <= n < 64,
    ensures
        is_b64_digit(b64_digit(n)),
        b64_digit(n) != '=',
        b64_value(b64_digit(n)) == n,
{
}

proof fn lemma_b64_group(b0: u8, b1: u8, b2: u8, len: int)
    requires
        1 <= len <= 3,
        len < 3 ==> b2 == 0,
        len < 2 ==> b1 == 0,
    ensures
        b64_group(b0, b1, b2, len).len() == 4,
        b64_group_bytes(b64_group(b0, b1, b2, len)) == seq![b0, b1, b2].take(len),
        forall|i: int| 0 <= i < 4 ==> (#[trigger] b64_group(b0, b1, b2, len)[i] == '=') == (i >= len + 1),
        forall|i: int| 0 <= i < 4 && i < len + 1 ==> is_b64_digit(#[trigger] b64_group(b0, b1, b2, len)[i]),
{
    let n: u32 = ((b0 as u32) * 65536 + (b1 as u32) * 256 + (b2 as u32)) as u32;
    assert(n as int == b0 as int * 65536 + b1 as int * 256 + b2 as int);
    let d0 = (n / 262144) % 64;
    let d1 = (n / 4096) % 64;
    let d2 = (n / 64) % 64;
    let d3 = n % 64;
    lemma_b64_digit(d0 as int);
    lemma_b64_digit(d1 as int);
    lemma_b64_digit(d2 as int);
    lemma_b64_digit(d3 as int);
    assert(d0 * 262144 + d1 * 4096 + d2 * 64 + d3 == n) by (bit_vector)
        requires
            n < 0x1000000u32,
            d0 == (n / 262144) % 64,
            d1 == (n / 4096) % 64,
            d2 == (n / 64) % 64,
            d3 == n % 64,
    ;
    assert(n / 65536 % 256 == b0 as u32 && n / 256 % 256 == b1 as u32 && n % 256 == b2 as u32) by (bit_vector)
        requires
            n == (b0 as u32) * 65536 + (b1 as u32) * 256 + (b2 as u32),
    ;
    assert(b2 == 0u8 ==> d3 == 0u32) by (bit_vector)
        requires
            n == (b0 as u32) * 65536 + (b1 as u32) * 256 + (b2 as u32),
            d3 == n % 64,
    ;
    assert(b1 == 0u8 && b2 == 0u8 ==> d2 == 0u32) by (bit_vector)
        requires
            n == (b0 as u32) * 65536 + (b1 as u32) * 256 + (b2 as u32),
            d2 == (n / 64) % 64,
    ;
    let g = b64_group(b0, b1, b2, len);
    let all = seq![b0, b1, b2];
    if len == 1 {
        assert(b64_value('=') == 0);
        assert(b64_group_bytes(g) =~= all.take(1));
    } else if len == 2 {
        assert(b64_value('=') == 0);
        assert(b64_group_bytes(g) =~= all.take(2));
    } else {
        assert(b64_group_bytes(g) =~= all.take(3));
    }
}

proof fn lemma_b64_full_groups_decode(data: Seq<u8>, k: int)
    requires
        0 <= k,
        3 * k <= data.len(),
    ensures
        base64_decoded(b64_full_groups(data, k)) == data.subrange(0, 3 * k),
        forall|i: int| 0 <= i < b64_full_groups(data, k).len() ==> is_b64_digit(#[trigger] b64_full_groups(data, k)[i]),
    decreases k,
{
    lemma_b64_full_groups_len(data, k);
    if k == 0 {
        assert(data.subrange(0, 0) =~= Seq::<u8>::empty());
    } else {
        lemma_b64_full_groups_decode(data, k - 1);
        lemma_b64_full_groups_len(data, k - 1);
        let p = b64_full_groups(data, k - 1);
        let i = 3 * (k - 1);
        let g = b64_group(data[i], data[i + 1], data[i + 2], 3);
        lemma_b64_group(data[i], data[i + 1], data[i + 2], 3);
        let t = b64_full_groups(data, k);
        assert(t == p + g);
        assert(t.subrange(0, t.len() - 4) =~= p);
        assert(t.subrange(t.len() - 4, t.len() as int) =~= g);
        assert(seq![data[i], data[i + 1], data[i + 2]].take(3) =~= seq![data[i], data[i + 1], data[i + 2]]);
        assert(data.subrange(0, 3 * k) =~= data.subrange(0, i) + seq![data[i], data[i + 1], data[i + 2]]);
        assert forall|j: int| 0 <= j < t.len() implies is_b64_digit(#[trigger] t[j]) by {
            if j < p.len() {
                assert(t[j] == p[j]);
            } else {
                assert(t[j] == g[j - p.len()]);
            }
        }
    }
}

/// `base64_encode` writes standard base64: `4 * ceil(n / 3)` characters, of
/// which the last `(3 - n % 3) % 3` are `=` and all others are digits of the
/// base64 alphabet, and decoding them gives the data back.
pub proof fn law_base64_standard(data: Seq<u8>)
    ensures
        base64(data).len() == (data.len() + 2) / 3 * 4,
        forall|i: int| 0 <= i < base64(data).len() ==> ((#[trigger] base64(data)[i] == '=') == (i >= base64(data).len()
            - (3 - data.len() % 3) % 3)),
        forall|i: int| 0 <= i < base64(data).len() - (3 - data.len() % 3) % 3 ==> is_b64_digit(#[trigger] base64(data)[i]),
        base64_decoded(base64(data)) == data,
{
    lemma_base64_len(data);
    let n = data.len() as int;
    let q = n / 3;
    let r = n % 3;
    lemma_b64_full_groups_decode(data, q);
    lemma_b64_full_groups_len(data, q);
    let p = b64_full_groups(data, q);
    let t = base64(data);
    if r == 0 {
        assert(t =~= p);
        assert(data.subrange(0, 3 * q) =~= data);
        assert forall|i: int| 0 <= i < t.len() implies (#[trigger] t[i] == '=') == (i >= t.len() - (3 - n % 3) % 3) by {
            assert(is_b64_digit(p[i]));
        }
    } else {
        let b1 = if r > 1 { data[3 * q + 1] } else { 0u8 };
        let g = b64_group(data[3 * q], b1, 0u8, r);
        lemma_b64_group(data[3 * q], b1, 0u8, r);
        assert(t == p + g);
        assert(t.len() == 4 * q + 4);
        assert(t.subrange(0, t.len() - 4) =~= p);
        assert(t.subrange(t.len() - 4, t.len() as int) =~= g);
        assert(base64_decoded(t) == base64_decoded(p) + b64_group_bytes(g));
        assert(seq![data[3 * q], b1, 0u8].take(r) =~= data.subrange(3 * q, n));
        assert(data =~= data.subrange(0, 3 * q) + data.subrange(3 * q, n));
        assert forall|i: int| 0 <= i < t.len() implies (#[trigger] t[i] == '=') == (i >= t.len() - (3 - n % 3) % 3) by {
            if i < p.len() {
                assert(t[i] == p[i]);
                assert(is_b64_digit(p[i]));
            } else {
                assert(t[i] == g[i - p.len()]);
            }
        }
        assert forall|i: int| 0 <= i < t.len() - (3 - n % 3) % 3 implies is_b64_digit(#[trigger] t[i]) by {
            if i < p.len() {
                assert(t[i] == p[i]);
            } else {
                assert(t[i] == g[i - p.len()]);
            }
        }
    }
}

fn b64_digit_exec(n: u32) -> (c: char)
    requires
        n < 64,
    ensures
        c == b64_digit(n as int),
{
    if n < 26 {
        ((65 + n) as u8) as char
    } else if n < 52 {
        ((97 + n - 26) as u8) as char
    } else if n < 62 {
        ((48 + n - 52) as u8) as char
    } else if n == 62 {
        '+'
    } else {
        '/'
    }
}

fn push_b64_group(out: &mut String, b0: u8, b1: u8, b2: u8, len: usize)
    requires
        1 <= len <= 3,
    ensures
        final(out)@ == old(out)@ + b64_group(b0, b1, b2, len as int),
{
    let n: u32 = (b0 as u32) * 65536 + (b1 as u32) * 256 + (b2 as u32);
    push_char(out, b64_digit_exec((n / 262144) % 64));
    push_char(out, b64_digit_exec((n / 4096) % 64));
    if len > 1 {
        push_char(out, b64_digit_exec((n / 64) % 64));
    } else {
        push_char(out, '=');
    }
    if len > 2 {
        push_char(out, b64_digit_exec(n % 64));
    } else {
        push_char(out, '=');
    }
    assert(final(out)@ =~= old(out)@ + b64_group(b0, b1, b2, len as int)) by {
    };
}

/// Base64-encode `data` (standard alphabet, `=` padding).
pub fn base64_encode(data: &[u8]) -> (r: String)
    ensures
        r@ == base64(data@),
{
    let mut out = String::new();
    let len = data.len();
    let q = len / 3;
    let mut k: usize = 0;
    while k < q
        invariant
            q == data@.len() / 3,
            len == data@.len(),
            k <= q,
            out@ == b64_full_groups(data@, k as int),
        decreases q - k,
    {
        let i = 3 * k;
        push_b64_group(&mut out, data[i], data[i + 1], data[i + 2], 3);
        k = k + 1;
    }
    let r = len % 3;
    if r > 0 {
        let i = 3 * q;
        let b1 = if r > 1 { data[i + 1] } else { 0u8 };
        push_b64_group(&mut out, data[i], b1, 0u8, r);
    } else {
        assert(out@ =~= out@ + Seq::<char>::empty());
    }
    out
}

} // verus!
