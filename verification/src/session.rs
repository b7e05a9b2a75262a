//! The viewer's session state: open documents as tabs and the active one,
//! the ids given to documents, and the file named on the command line.

use vstd::prelude::*;
use std::sync::Arc;
use crate::text::{owned, push_char, str_eq};
use crate::types::{NodeId, opt_str_view};
use crate::document::{all_digits, digits_value, parse_u64_spec};

verus! {

/// Where a loaded document came from, so it can be re-read.
#[derive(Debug, Clone)]
pub enum DocumentSource {
    Path(String),
    Bytes(Arc<Vec<u8>>),
}

/// One open document as the tab bar shows it.
#[derive(Debug, Clone)]
pub struct TabInfo {
    pub document_id: String,
    pub path: String,
    pub name: String,
    pub active_page: usize,
}

/// Metadata for a loaded document (no scene data).
#[derive(Debug, Clone)]
pub struct DocumentMetadata {
    pub document_id: String,
    pub file_name: String,
    pub pages: Vec<PageMeta>,
    pub node_count: usize,
    pub image_count: usize,
    pub version: u32,
    pub schema_def_count: usize,
}

#[derive(Debug, Clone)]
pub struct PageMeta {
    pub id: String,
    pub name: String,
}

/// The tabs that remain after closing document `id`, in order.
pub open spec fn tabs_without(tabs: Seq<TabInfo>, id: Seq<char>) -> Seq<TabInfo>
    decreases tabs.len(),
{
    if tabs.len() == 0 {
        Seq::empty()
    } else if tabs.last().document_id@ == id {
        tabs_without(tabs.drop_last(), id)
    } else {
        tabs_without(tabs.drop_last(), id).push(tabs.last())
    }
}

/// The active document after closing `id`: unchanged unless it was `id`, in
/// which case the first remaining tab (or none).
pub open spec fn active_after_close(active: Option<Seq<char>>, remaining: Seq<TabInfo>, id: Seq<char>) -> Option<Seq<char>> {
    if active == Some(id) {
        if remaining.len() > 0 {
            Some(remaining[0].document_id@)
        } else {
            None
        }
    } else {
        active
    }
}

/// Close document `document_id`: drop its tabs, and move the active
/// document to the first remaining tab when it was the one closed.
pub fn close_tab(tabs: &mut Vec<TabInfo>, active: &mut Option<String>, document_id: &str)
    ensures
        final(tabs)@ == tabs_without(old(tabs)@, document_id@),
        opt_str_view(*final(active)) == active_after_close(
            opt_str_view(*old(active)),
            tabs_without(old(tabs)@, document_id@),
            document_id@,
        ),
{
    let ghost start = tabs@;
    let ghost id = document_id@;
    let mut i: usize = 0;
    let mut j: usize = 0;
    let n = tabs.len();
    while j < n
        invariant
            n == start.len(),
            id == document_id@,
            j <= n,
            i == tabs_without(start.take(j as int), id).len(),
            tabs@ == tabs_without(start.take(j as int), id) + start.skip(j as int),
        decreases n - j,
    {
        proof {
            assert(start.take(j + 1).drop_last() =~= start.take(j as int));
            assert(start.take(j + 1).last() == start[j as int]);
        }
        let ghost kept = tabs_without(start.take(j as int), id);
        assert(tabs@[i as int] == start[j as int]);
        assert(i < tabs.len());
        if str_eq(tabs[i].document_id.as_str(), document_id) {
            let ghost before = tabs@;
            tabs.remove(i);
            assert(tabs_without(start.take(j + 1), id) == kept);
            assert(before.remove(i as int) =~= kept + start.skip(j + 1));
            assert(tabs@ =~= tabs_without(start.take(j + 1), id) + start.skip(j + 1));
        } else {
            i = i + 1;
            assert(tabs@ =~= tabs_without(start.take(j + 1), id) + start.skip(j + 1));
        }
        j = j + 1;
    }
    assert(start.take(n as int) =~= start);
    assert(tabs@ =~= tabs_without(start, id));
    let was_active = match active {
        Some(a) => str_eq(a.as_str(), document_id),
        None => false,
    };
    if was_active {
        *active = if tabs.len() > 0 {
            Some(tabs[0].document_id.clone())
        } else {
            None
        };
    }
}

/// Open a document as a new tab and make it the active one.
pub fn open_tab(tabs: &mut Vec<TabInfo>, active: &mut Option<String>, tab: TabInfo)
    ensures
        final(tabs)@ == old(tabs)@.push(tab),
        opt_str_view(*final(active)) == Some(tab.document_id@),
{
    let id = tab.document_id.clone();
    tabs.push(tab);
    *active = Some(id);
}

/// Closing removes every tab of the closed document and keeps the others in
/// order; closing a document that has no tab changes nothing.
pub proof fn lemma_close_tab(tabs: Seq<TabInfo>, id: Seq<char>)
    ensures
        forall|k: int|
            0 <= k < tabs_without(tabs, id).len() ==> (#[trigger] tabs_without(tabs, id)[k]).document_id@ != id,
        (forall|k: int| 0 <= k < tabs.len() ==> (#[trigger] tabs[k]).document_id@ != id) ==> tabs_without(tabs, id)
            == tabs,
    decreases tabs.len(),
{
    if tabs.len() > 0 {
        lemma_close_tab(tabs.drop_last(), id);
        let w = tabs_without(tabs, id);
        let wp = tabs_without(tabs.drop_last(), id);
        assert forall|k: int| 0 <= k < w.len() implies (#[trigger] w[k]).document_id@ != id by {
            if tabs.last().document_id@ != id && k == wp.len() {
                assert(w[k] == tabs.last());
            } else {
                assert(w[k] == wp[k]);
            }
        }
        if forall|k: int| 0 <= k < tabs.len() ==> (#[trigger] tabs[k]).document_id@ != id {
            assert forall|k: int| 0 <= k < tabs.drop_last().len() implies (
            #[trigger] tabs.drop_last()[k]).document_id@ != id by {
                assert(tabs.drop_last()[k] == tabs[k]);
            }
            assert(tabs[tabs.len() - 1].document_id@ != id);
            assert(tabs.drop_last().push(tabs.last()) =~= tabs);
        }
    }
}

/// Opening a document under a fresh id and closing it again gives back the
/// tab list as it was.
pub proof fn lemma_close_undoes_open(tabs: Seq<TabInfo>, tab: TabInfo)
    requires
        forall|k: int| 0 <= k < tabs.len() ==> (#[trigger] tabs[k]).document_id@ != tab.document_id@,
    ensures
        tabs_without(tabs.push(tab), tab.document_id@) == tabs,
{
    lemma_close_tab(tabs, tab.document_id@);
    assert(tabs.push(tab).drop_last() =~= tabs);
}

/// The digit character for `d < 16`: `0`-`9`, then `a`-`f`.
pub open spec fn digit_char(d: int) -> char {
    if d < 10 {
        (48 + d) as char
    } else {
        (87 + d) as char
    }
}

/// Lowercase hexadecimal of `n`, no leading zeros.
pub open spec fn hex_text(n: nat) -> Seq<char>
    decreases n,
{
    if n < 16 {
        seq![digit_char(n as int)]
    } else {
        hex_text(n / 16).push(digit_char((n % 16) as int))
    }
}

/// Decimal of `n`, no leading zeros.
pub open spec fn dec_text(n: nat) -> Seq<char>
    decreases n,
{
    if n < 10 {
        seq![digit_char(n as int)]
    } else {
        dec_text(n / 10).push(digit_char((n % 10) as int))
    }
}

fn digit(d: u64) -> (c: char)
    requires
        d < 16,
    ensures
        c == digit_char(d as int),
{
    if d < 10 {
        ((48 + d) as u8) as char
    } else {
        ((87 + d) as u8) as char
    }
}

fn push_hex(out: &mut String, n: u64)
    ensures
        final(out)@ == old(out)@ + hex_text(n as nat),
    decreases n,
{
    if n >= 16 {
        push_hex(out, n / 16);
    }
    push_char(out, digit(n % 16));
    proof {
        if n >= 16 {
            assert(final(out)@ =~= old(out)@ + hex_text(n as nat));
        } else {
            assert(final(out)@ =~= old(out)@ + hex_text(n as nat));
        }
    }
}

pub(crate) fn push_dec(out: &mut String, n: u64)
    ensures
        final(out)@ == old(out)@ + dec_text(n as nat),
    decreases n,
{
    if n >= 10 {
        push_dec(out, n / 10);
    }
    push_char(out, digit(n % 10));
    proof {
        assert(final(out)@ =~= old(out)@ + dec_text(n as nat));
    }
}

/// The id given to a document opened at a moment: `doc-`, the whole
/// seconds in hex, `-`, the nanoseconds in hex.
pub open spec fn document_id_spec(secs: u64, nanos: u32) -> Seq<char> {
    "doc-"@ + hex_text(secs as nat) + "-"@ + hex_text(nanos as nat)
}

/// The document id for a moment given as seconds and nanoseconds.
pub fn document_id_text(secs: u64, nanos: u32) -> (r: String)
    ensures
        r@ == document_id_spec(secs, nanos),
{
    let mut out = owned("doc-");
    push_hex(&mut out, secs);
    push_char(&mut out, '-');
    push_hex(&mut out, nanos as u64);
    proof {
        reveal_strlit("-");
        assert(out@ =~= document_id_spec(secs, nanos));
    }
    out
}

/// A node id as text: session and local id in decimal, joined by `:`.
pub open spec fn node_id_spec(id: NodeId) -> Seq<char> {
    dec_text(id.session_id as nat).push(':') + dec_text(id.local_id as nat)
}

/// The text form of a node id, as the front end keys nodes.
pub fn node_id_text(id: NodeId) -> (r: String)
    ensures
        r@ == node_id_spec(id),
{
    let mut out = String::new();
    push_dec(&mut out, id.session_id as u64);
    push_char(&mut out, ':');
    push_dec(&mut out, id.local_id as u64);
    proof {
        assert(out@ =~= node_id_spec(id));
    }
    out
}

/// `c` with ASCII capitals made lowercase.
pub open spec fn ascii_lower(c: char) -> char {
    if 'A' <= c <= 'Z' {
        ((c as int) + 32) as char
    } else {
        c
    }
}

/// The name ends in `.fig`, in any ASCII case.
pub open spec fn is_fig_name(s: Seq<char>) -> bool {
    &&& s.len() >= 4
    &&& ascii_lower(s[s.len() - 4]) == '.'
    &&& ascii_lower(s[s.len() - 3]) == 'f'
    &&& ascii_lower(s[s.len() - 2]) == 'i'
    &&& ascii_lower(s[s.len() - 1]) == 'g'
}

fn lower(c: char) -> (r: char)
    ensures
        r == ascii_lower(c),
{
    if 'A' <= c && c <= 'Z' {
        ((c as u8) + 32) as char
    } else {
        c
    }
}

/// Whether `s` names a `.fig` file (case-insensitive extension).
pub fn is_fig_path(s: &str) -> (r: bool)
    ensures
        r == is_fig_name(s@),
{
    let n = s.unicode_len();
    if n < 4 {
        return false;
    }
    lower(s.get_char(n - 4)) == '.' && lower(s.get_char(n - 3)) == 'f' && lower(s.get_char(n - 2)) == 'i'
        && lower(s.get_char(n - 1)) == 'g'
}

/// The file to open at start: the first argument after the program name
/// that names a `.fig` file.
pub fn startup_path(args: &Vec<String>) -> (r: Option<String>)
    ensures
        match r {
            Some(p) => exists|k: int|
                1 <= k < args@.len() && is_fig_name((#[trigger] args@[k])@) && p@ == args@[k]@ && forall|
                    q: int,
                | 1 <= q < k ==> !is_fig_name((#[trigger] args@[q])@),
            None => forall|k: int| 1 <= k < args@.len() ==> !is_fig_name((#[trigger] args@[k])@),
        },
{
    let mut k: usize = 1;
    while k < args.len()
        invariant
            1 <= k,
            forall|q: int| 1 <= q < k && q < args@.len() ==> !is_fig_name((#[trigger] args@[q])@),
        decreases args.len() - k,
    {
        if is_fig_path(args[k].as_str()) {
            return Some(args[k].clone());
        }
        k = k + 1;
    }
    None
}

proof fn lemma_dec_text_digits(n: nat)
    ensures
        dec_text(n).len() > 0,
        all_digits(dec_text(n)),
        digits_value(dec_text(n)) == n,
    decreases n,
{
    if n >= 10 {
        lemma_dec_text_digits(n / 10);
        let t = dec_text(n);
        assert(t.drop_last() == dec_text(n / 10));
        let d = (n % 10) as int;
        assert(t.last() == digit_char(d));
        assert((digit_char(d) as int) == 48 + d);
        assert(digits_value(t) == digits_value(t.drop_last()) * 10 + (t.last() as int - 48));
    } else {
        let t = dec_text(n);
        assert(t.drop_last() =~= Seq::<char>::empty());
        assert((digit_char(n as int) as int) == 48 + n);
        assert(digits_value(t) == digits_value(t.drop_last()) * 10 + (t.last() as int - 48));
        assert forall|i: int| 0 <= i < t.len() implies '0' <= #[trigger] t[i] <= '9' by {
            if i < t.len() - 1 {
                assert(t[i] == dec_text(n / 10)[i]);
            }
        }
    }
}

/// The decimal text of a number reads back as that number: node id texts
/// and position keys agree.
pub proof fn lemma_dec_text_parses_back(n: u64)
    ensures
        parse_u64_spec(dec_text(n as nat)) == Some(n),
{
    lemma_dec_text_digits(n as nat);
    let t = dec_text(n as nat);
    assert('0' <= t[0] <= '9');
}

proof fn lemma_hex_text_facts(n: nat)
    ensures
        hex_text(n).len() > 0,
        forall|i: int| 0 <= i < hex_text(n).len() ==> #[trigger] hex_text(n)[i] != '-',
        n < 16 <==> hex_text(n).len() == 1,
    decreases n,
{
    if n >= 16 {
        lemma_hex_text_facts(n / 16);
        let t = hex_text(n);
        assert forall|i: int| 0 <= i < t.len() implies #[trigger] t[i] != '-' by {
            if i < t.len() - 1 {
                assert(t[i] == hex_text(n / 16)[i]);
            }
        }
    }
}

proof fn lemma_digit_char_injective(a: int, b: int)
    requires
        0 <= a < 16,
        0 <= b < 16,
        digit_char(a) == digit_char(b),
    ensures
        a == b,
{
}

/// Different numbers have different hexadecimal texts.
pub proof fn lemma_hex_text_injective(a: nat, b: nat)
    requires
        hex_text(a) == hex_text(b),
    ensures
        a == b,
    decreases a,
{
    lemma_hex_text_facts(a);
    lemma_hex_text_facts(b);
    let ta = hex_text(a);
    let tb = hex_text(b);
    if a < 16 {
        assert(b < 16);
        assert(ta[0] == digit_char(a as int));
        assert(tb[0] == digit_char(b as int));
        lemma_digit_char_injective(a as int, b as int);
    } else {
        assert(b >= 16);
        assert(ta.drop_last() == hex_text(a / 16));
        assert(tb.drop_last() == hex_text(b / 16));
        lemma_hex_text_injective(a / 16, b / 16);
        assert(ta.last() == digit_char((a % 16) as int));
        assert(tb.last() == digit_char((b % 16) as int));
        lemma_digit_char_injective((a % 16) as int, (b % 16) as int);
    }
}

/// Two moments get the same document id only when they are the same moment.
pub proof fn lemma_document_ids_distinct(s1: u64, n1: u32, s2: u64, n2: u32)
    requires
        document_id_spec(s1, n1) == document_id_spec(s2, n2),
    ensures
        s1 == s2 && n1 == n2,
{
    reveal_strlit("doc-");
    reveal_strlit("-");
    let h1 = hex_text(s1 as nat);
    let h2 = hex_text(s2 as nat);
    let k1 = hex_text(n1 as nat);
    let k2 = hex_text(n2 as nat);
    lemma_hex_text_facts(s1 as nat);
    lemma_hex_text_facts(s2 as nat);
    lemma_hex_text_facts(n1 as nat);
    lemma_hex_text_facts(n2 as nat);
    let d1 = document_id_spec(s1, n1);
    let d2 = document_id_spec(s2, n2);
    assert(d1 =~= "doc-"@ + h1 + "-"@ + k1);
    // The first '-' after the prefix ends the seconds.
    if h1.len() < h2.len() {
        assert(d1[4 + h1.len() as int] == '-');
        assert(d2[4 + h1.len() as int] == h2[h1.len() as int]);
        assert(false);
    } else if h2.len() < h1.len() {
        assert(d2[4 + h2.len() as int] == '-');
        assert(d1[4 + h2.len() as int] == h1[h2.len() as int]);
        assert(false);
    }
    assert(h1 =~= d1.subrange(4, 4 + h1.len() as int));
    assert(h2 =~= d2.subrange(4, 4 + h2.len() as int));
    lemma_hex_text_injective(s1 as nat, s2 as nat);
    assert(k1 =~= d1.subrange(5 + h1.len() as int, d1.len() as int));
    assert(k2 =~= d2.subrange(5 + h2.len() as int, d2.len() as int));
    lemma_hex_text_injective(n1 as nat, n2 as nat);
}

} // verus!
