//! Keyword-driven heuristics: auto-categorization, tag extraction, and the
//! recurrence flag and frequency label.
//!
//! The category and tag tables are ordered association lists handed in as
//! configuration; first-match semantics are part of the contracts.  Matching
//! is case-insensitive through ASCII lower-casing of the scanned text; the
//! keywords themselves are stored lower-case.

use vstd::prelude::*;
use crate::models::{Frequency, opt_bytes_view};
use crate::text::{ascii_bytes, contains_bytes, contains_seq, lit_bytes, lower_bytes, to_lower};

verus! {

/// View of an ordered `(name, keywords)` table.
pub open spec fn table_view(t: Seq<(Vec<u8>, Vec<Vec<u8>>)>) -> Seq<(Seq<u8>, Seq<Seq<u8>>)> {
    Seq::new(t.len(), |i: int| (t[i].0@, t[i].1.deep_view()))
}

/// Some keyword of `kws` occurs in `text`.
pub open spec fn any_kw(text: Seq<u8>, kws: Seq<Seq<u8>>) -> bool {
    exists|i: int| 0 <= i < kws.len() && contains_seq(text, #[trigger] kws[i])
}

/// The name of the first table entry one of whose keywords occurs in
/// `text`, or `None` when no entry matches.
pub open spec fn categorize_spec(table: Seq<(Seq<u8>, Seq<Seq<u8>>)>, text: Seq<u8>) -> Option<
    Seq<u8>,
>
    decreases table.len(),
{
    if table.len() == 0 {
        None
    } else if any_kw(text, table.first().1) {
        Some(table.first().0)
    } else {
        categorize_spec(table.drop_first(), text)
    }
}

/// The names of all entries with an occurring keyword, in table order.
pub open spec fn tags_spec(rules: Seq<(Seq<u8>, Seq<Seq<u8>>)>, text: Seq<u8>) -> Seq<Seq<u8>>
    decreases rules.len(),
{
    if rules.len() == 0 {
        seq![]
    } else {
        let rest = tags_spec(rules.drop_first(), text);
        if any_kw(text, rules.first().1) {
            seq![rules.first().0] + rest
        } else {
            rest
        }
    }
}

/// Whether some keyword of `kws` occurs in `text`.
pub fn any_kw_exec(text: &[u8], kws: &Vec<Vec<u8>>) -> (r: bool)
    ensures
        r == any_kw(text@, kws.deep_view()),
{
    let n: usize = kws.len();
    let mut i: usize = 0;
    while i < n
        invariant
            0 <= i <= n,
            n == kws@.len(),
            forall|k: int| 0 <= k < i ==> !contains_seq(text@, #[trigger] kws.deep_view()[k]),
        decreases n - i,
    {
        let hit = contains_bytes(text, kws[i].as_slice());
        proof {
            assert(kws.deep_view()[i as int] == kws@[i as int]@);
        }
        if hit {
            return true;
        }
        i = i + 1;
    }
    false
}

/// First-match categorization of `text` (already lower-cased) against an
/// ordered table.
fn categorize_lowered(table: &Vec<(Vec<u8>, Vec<Vec<u8>>)>, text: &[u8]) -> (r: Option<Vec<u8>>)
    ensures
        opt_bytes_view(r) == categorize_spec(table_view(table@), text@),
{
    let n: usize = table.len();
    let ghost tv = table_view(table@);
    let mut i: usize = 0;
    proof {
        assert(tv.skip(0) =~= tv);
    }
    while i < n
        invariant
            0 <= i <= n,
            n == table@.len(),
            tv == table_view(table@),
            categorize_spec(tv, text@) == categorize_spec(tv.skip(i as int), text@),
        decreases n - i,
    {
        proof {
            assert(tv.skip(i as int).first() == tv[i as int]);
            assert(tv.skip(i as int).drop_first() =~= tv.skip(i + 1));
        }
        if any_kw_exec(text, &table[i].1) {
            let name = vstd::slice::slice_to_vec(table[i].0.as_slice());
            return Some(name);
        }
        i = i + 1;
    }
    proof {
        assert(tv.skip(n as int).len() == 0);
    }
    None
}

/// First-match categorization of a description against an ordered table;
/// the description is lower-cased before matching.
pub fn categorize_with(table: &Vec<(Vec<u8>, Vec<Vec<u8>>)>, description: &[u8]) -> (r: Option<
    Vec<u8>,
>)
    ensures
        opt_bytes_view(r) == categorize_spec(table_view(table@), to_lower(description@)),
{
    let lower = lower_bytes(description);
    categorize_lowered(table, lower.as_slice())
}

/// All matching tags of `text` (already lower-cased), in rule order.
fn tags_lowered(rules: &Vec<(Vec<u8>, Vec<Vec<u8>>)>, text: &[u8]) -> (r: Vec<Vec<u8>>)
    ensures
        r.deep_view() == tags_spec(table_view(rules@), text@),
{
    let n: usize = rules.len();
    let ghost rv = table_view(rules@);
    let mut out: Vec<Vec<u8>> = Vec::new();
    let mut i: usize = 0;
    proof {
        assert(rv.skip(0) =~= rv);
        assert(out.deep_view() + tags_spec(rv, text@) =~= tags_spec(rv, text@));
    }
    while i < n
        invariant
            0 <= i <= n,
            n == rules@.len(),
            rv == table_view(rules@),
            tags_spec(rv, text@) == out.deep_view() + tags_spec(rv.skip(i as int), text@),
        decreases n - i,
    {
        proof {
            assert(rv.skip(i as int).first() == rv[i as int]);
            assert(rv.skip(i as int).drop_first() =~= rv.skip(i + 1));
        }
        let ghost old_out = out.deep_view();
        if any_kw_exec(text, &rules[i].1) {
            let name = vstd::slice::slice_to_vec(rules[i].0.as_slice());
            out.push(name);
            proof {
                assert(out.deep_view() =~~= old_out.push(rv[i as int].0));
                assert(old_out.push(rv[i as int].0) + tags_spec(rv.skip(i + 1), text@)
                    =~= old_out + (seq![rv[i as int].0] + tags_spec(rv.skip(i + 1), text@)));
            }
        }
        i = i + 1;
    }
    proof {
        assert(tags_spec(rv.skip(n as int), text@) =~= Seq::<Seq<u8>>::empty());
        assert(out.deep_view() + Seq::<Seq<u8>>::empty() =~= out.deep_view());
    }
    out
}

/// Text scanned by the tag and recurrence heuristics: the parts joined by
/// single spaces.
pub open spec fn joined2(a: Seq<u8>, b: Seq<u8>) -> Seq<u8> {
    a + seq![32u8] + b
}

pub open spec fn joined3(a: Seq<u8>, b: Seq<u8>, c: Seq<u8>) -> Seq<u8> {
    a + seq![32u8] + b + seq![32u8] + c
}

fn join2(a: &[u8], b: &[u8]) -> (r: Vec<u8>)
    ensures
        r@ == joined2(a@, b@),
{
    let mut r = vstd::slice::slice_to_vec(a);
    r.push(32);
    crate::text::push_bytes(&mut r, b);
    proof {
        assert(r@ =~= joined2(a@, b@));
    }
    r
}

fn join3(a: &[u8], b: &[u8], c: &[u8]) -> (r: Vec<u8>)
    ensures
        r@ == joined3(a@, b@, c@),
{
    let mut r = vstd::slice::slice_to_vec(a);
    r.push(32);
    crate::text::push_bytes(&mut r, b);
    r.push(32);
    crate::text::push_bytes(&mut r, c);
    proof {
        assert(r@ =~= joined3(a@, b@, c@));
    }
    r
}

// ---------------------------------------------------------------------------
// Default tables
// ---------------------------------------------------------------------------

fn push_entry(t: &mut Vec<(Vec<u8>, Vec<Vec<u8>>)>, name: Vec<u8>, kws: Vec<Vec<u8>>)
    ensures
        table_view(final(t)@) == table_view(old(t)@).push((name@, kws.deep_view())),
{
    let ghost nv = name@;
    let ghost kv = kws.deep_view();
    t.push((name, kws));
    proof {
        assert(table_view(t@) =~= table_view(old(t)@).push((nv, kv)));
    }
}

/// The built-in category table: ordered `(category id, keywords)` pairs.
pub open spec fn default_category_table_view() -> Seq<(Seq<u8>, Seq<Seq<u8>>)> {
    seq![
        (ascii_bytes("supermarkt"@), seq![ascii_bytes("albert heijn"@), ascii_bytes("jumbo"@), ascii_bytes("plus"@), ascii_bytes("dirk"@), ascii_bytes("c1000"@), ascii_bytes("vomar"@), ascii_bytes("dekamarkt"@), ascii_bytes("ekoplaza"@)]),
        (ascii_bytes("boodschappen"@), seq![ascii_bytes("ah"@), ascii_bytes("picnic"@), ascii_bytes("gorillas"@), ascii_bytes("flinck"@), ascii_bytes("crisp"@)]),
        (ascii_bytes("restaurant"@), seq![ascii_bytes("restaurant"@), ascii_bytes("cafe"@), ascii_bytes("bar"@), ascii_bytes("eetcafe"@), ascii_bytes("lunch"@), ascii_bytes("diner"@)]),
        (ascii_bytes("fastfood"@), seq![ascii_bytes("mcdonald"@), ascii_bytes("bk"@), ascii_bytes("burger king"@), ascii_bytes("kfc"@), ascii_bytes("subway"@), ascii_bytes("dominos"@)]),
        (ascii_bytes("woning"@), seq![ascii_bytes("huur"@), ascii_bytes("hypotheek"@), ascii_bytes("energie"@), ascii_bytes("gas"@), ascii_bytes("elektra"@), ascii_bytes("water"@), ascii_bytes("vve"@)]),
        (ascii_bytes("verzekering"@), seq![ascii_bytes("verzekering"@), ascii_bytes("inz"@), ascii_bytes("cz"@), ascii_bytes("menzis"@), ascii_bytes("aegon"@), ascii_bytes("nn"@)]),
        (ascii_bytes("telecom"@), seq![ascii_bytes("kpn"@), ascii_bytes("vodafone"@), ascii_bytes("t-mobile"@), ascii_bytes("ziggo"@), ascii_bytes("tele2"@)]),
        (ascii_bytes("transport"@), seq![ascii_bytes("ns"@), ascii_bytes("ov"@), ascii_bytes("trein"@), ascii_bytes("bus"@), ascii_bytes("tram"@), ascii_bytes("metro"@), ascii_bytes("benzine"@), ascii_bytes("shell"@), ascii_bytes("bp"@), ascii_bytes("total"@)]),
        (ascii_bytes("internet"@), seq![ascii_bytes("ziggo"@), ascii_bytes("kpn"@), ascii_bytes("t-mobile"@), ascii_bytes("online"@)]),
        (ascii_bytes("salaris"@), seq![ascii_bytes("salaris"@), ascii_bytes("loon"@), ascii_bytes("inkomen"@)]),
        (ascii_bytes("belasting"@), seq![ascii_bytes("belasting"@), ascii_bytes("toeslag"@), ascii_bytes("douane"@)]),
        (ascii_bytes("entertainment"@), seq![ascii_bytes("netflix"@), ascii_bytes("spotify"@), ascii_bytes("videoland"@), ascii_bytes("bol.com"@), ascii_bytes("amazon"@), ascii_bytes("coolblue"@)]),
        (ascii_bytes("sport"@), seq![ascii_bytes("sportschool"@), ascii_bytes("fitness"@), ascii_bytes("gym"@), ascii_bytes("basic-fit"@)]),
        (ascii_bytes("kleding"@), seq![ascii_bytes("h&m"@), ascii_bytes("zara"@), ascii_bytes("c&a"@), ascii_bytes("we"@), ascii_bytes("bijenkorf"@)]),
        (ascii_bytes("gezondheid"@), seq![ascii_bytes("apotheek"@), ascii_bytes("huisarts"@), ascii_bytes("ziekenhuis"@), ascii_bytes("tandarts"@)]),
        (ascii_bytes("onderwijs"@), seq![ascii_bytes("school"@), ascii_bytes("universiteit"@), ascii_bytes("studie"@), ascii_bytes("les"@), ascii_bytes("cursus"@)]),
    ]
}

/// Builds the built-in category table.
#[verifier::rlimit(100)]
pub fn default_category_table() -> (r: Vec<(Vec<u8>, Vec<Vec<u8>>)>)
    ensures
        table_view(r@) == default_category_table_view(),
{
    proof {
        reveal_strlit("aegon");
        reveal_strlit("ah");
        reveal_strlit("albert heijn");
        reveal_strlit("amazon");
        reveal_strlit("apotheek");
        reveal_strlit("bar");
        reveal_strlit("basic-fit");
        reveal_strlit("belasting");
        reveal_strlit("benzine");
        reveal_strlit("bijenkorf");
        reveal_strlit("bk");
        reveal_strlit("bol.com");
        reveal_strlit("boodschappen");
        reveal_strlit("bp");
        reveal_strlit("burger king");
        reveal_strlit("bus");
        reveal_strlit("c&a");
        reveal_strlit("c1000");
        reveal_strlit("cafe");
        reveal_strlit("coolblue");
        reveal_strlit("crisp");
        reveal_strlit("cursus");
        reveal_strlit("cz");
        reveal_strlit("dekamarkt");
        reveal_strlit("diner");
        reveal_strlit("dirk");
        reveal_strlit("dominos");
        reveal_strlit("douane");
        reveal_strlit("eetcafe");
        reveal_strlit("ekoplaza");
        reveal_strlit("elektra");
        reveal_strlit("energie");
        reveal_strlit("entertainment");
        reveal_strlit("fastfood");
        reveal_strlit("fitness");
        reveal_strlit("flinck");
        reveal_strlit("gas");
        reveal_strlit("gezondheid");
        reveal_strlit("gorillas");
        reveal_strlit("gym");
        reveal_strlit("h&m");
        reveal_strlit("huisarts");
        reveal_strlit("huur");
        reveal_strlit("hypotheek");
        reveal_strlit("inkomen");
        reveal_strlit("internet");
        reveal_strlit("inz");
        reveal_strlit("jumbo");
        reveal_strlit("kfc");
        reveal_strlit("kleding");
        reveal_strlit("kpn");
        reveal_strlit("les");
        reveal_strlit("loon");
        reveal_strlit("lunch");
        reveal_strlit("mcdonald");
        reveal_strlit("menzis");
        reveal_strlit("metro");
        reveal_strlit("netflix");
        reveal_strlit("nn");
        reveal_strlit("ns");
        reveal_strlit("onderwijs");
        reveal_strlit("online");
        reveal_strlit("ov");
        reveal_strlit("picnic");
        reveal_strlit("plus");
        reveal_strlit("restaurant");
        reveal_strlit("salaris");
        reveal_strlit("school");
        reveal_strlit("shell");
        reveal_strlit("sport");
        reveal_strlit("sportschool");
        reveal_strlit("spotify");
        reveal_strlit("studie");
        reveal_strlit("subway");
        reveal_strlit("supermarkt");
        reveal_strlit("t-mobile");
        reveal_strlit("tandarts");
        reveal_strlit("tele2");
        reveal_strlit("telecom");
        reveal_strlit("toeslag");
        reveal_strlit("total");
        reveal_strlit("tram");
        reveal_strlit("transport");
        reveal_strlit("trein");
        reveal_strlit("universiteit");
        reveal_strlit("verzekering");
        reveal_strlit("videoland");
        reveal_strlit("vodafone");
        reveal_strlit("vomar");
        reveal_strlit("vve");
        reveal_strlit("water");
        reveal_strlit("we");
        reveal_strlit("woning");
        reveal_strlit("zara");
        reveal_strlit("ziekenhuis");
        reveal_strlit("ziggo");
    }
    let mut t: Vec<(Vec<u8>, Vec<Vec<u8>>)> = Vec::new();
    let mut k0: Vec<Vec<u8>> = Vec::new();
    k0.push(lit_bytes("albert heijn"));
    k0.push(lit_bytes("jumbo"));
    k0.push(lit_bytes("plus"));
    k0.push(lit_bytes("dirk"));
    k0.push(lit_bytes("c1000"));
    k0.push(lit_bytes("vomar"));
    k0.push(lit_bytes("dekamarkt"));
    k0.push(lit_bytes("ekoplaza"));
    proof {
        assert(k0.deep_view() =~~= seq![ascii_bytes("albert heijn"@), ascii_bytes("jumbo"@), ascii_bytes("plus"@), ascii_bytes("dirk"@), ascii_bytes("c1000"@), ascii_bytes("vomar"@), ascii_bytes("dekamarkt"@), ascii_bytes("ekoplaza"@)]);
    }
    push_entry(&mut t, lit_bytes("supermarkt"), k0);
    let mut k1: Vec<Vec<u8>> = Vec::new();
    k1.push(lit_bytes("ah"));
    k1.push(lit_bytes("picnic"));
    k1.push(lit_bytes("gorillas"));
    k1.push(lit_bytes("flinck"));
    k1.push(lit_bytes("crisp"));
    proof {
        assert(k1.deep_view() =~~= seq![ascii_bytes("ah"@), ascii_bytes("picnic"@), ascii_bytes("gorillas"@), ascii_bytes("flinck"@), ascii_bytes("crisp"@)]);
    }
    push_entry(&mut t, lit_bytes("boodschappen"), k1);
    let mut k2: Vec<Vec<u8>> = Vec::new();
    k2.push(lit_bytes("restaurant"));
    k2.push(lit_bytes("cafe"));
    k2.push(lit_bytes("bar"));
    k2.push(lit_bytes("eetcafe"));
    k2.push(lit_bytes("lunch"));
    k2.push(lit_bytes("diner"));
    proof {
        assert(k2.deep_view() =~~= seq![ascii_bytes("restaurant"@), ascii_bytes("cafe"@), ascii_bytes("bar"@), ascii_bytes("eetcafe"@), ascii_bytes("lunch"@), ascii_bytes("diner"@)]);
    }
    push_entry(&mut t, lit_bytes("restaurant"), k2);
    let mut k3: Vec<Vec<u8>> = Vec::new();
    k3.push(lit_bytes("mcdonald"));
    k3.push(lit_bytes("bk"));
    k3.push(lit_bytes("burger king"));
    k3.push(lit_bytes("kfc"));
    k3.push(lit_bytes("subway"));
    k3.push(lit_bytes("dominos"));
    proof {
        assert(k3.deep_view() =~~= seq![ascii_bytes("mcdonald"@), ascii_bytes("bk"@), ascii_bytes("burger king"@), ascii_bytes("kfc"@), ascii_bytes("subway"@), ascii_bytes("dominos"@)]);
    }
    push_entry(&mut t, lit_bytes("fastfood"), k3);
    let mut k4: Vec<Vec<u8>> = Vec::new();
    k4.push(lit_bytes("huur"));
    k4.push(lit_bytes("hypotheek"));
    k4.push(lit_bytes("energie"));
    k4.push(lit_bytes("gas"));
    k4.push(lit_bytes("elektra"));
    k4.push(lit_bytes("water"));
    k4.push(lit_bytes("vve"));
    proof {
        assert(k4.deep_view() =~~= seq![ascii_bytes("huur"@), ascii_bytes("hypotheek"@), ascii_bytes("energie"@), ascii_bytes("gas"@), ascii_bytes("elektra"@), ascii_bytes("water"@), ascii_bytes("vve"@)]);
    }
    push_entry(&mut t, lit_bytes("woning"), k4);
    let mut k5: Vec<Vec<u8>> = Vec::new();
    k5.push(lit_bytes("verzekering"));
    k5.push(lit_bytes("inz"));
    k5.push(lit_bytes("cz"));
    k5.push(lit_bytes("menzis"));
    k5.push(lit_bytes("aegon"));
    k5.push(lit_bytes("nn"));
    proof {
        assert(k5.deep_view() =~~= seq![ascii_bytes("verzekering"@), ascii_bytes("inz"@), ascii_bytes("cz"@), ascii_bytes("menzis"@), ascii_bytes("aegon"@), ascii_bytes("nn"@)]);
    }
    push_entry(&mut t, lit_bytes("verzekering"), k5);
    let mut k6: Vec<Vec<u8>> = Vec::new();
    k6.push(lit_bytes("kpn"));
    k6.push(lit_bytes("vodafone"));
    k6.push(lit_bytes("t-mobile"));
    k6.push(lit_bytes("ziggo"));
    k6.push(lit_bytes("tele2"));
    proof {
        assert(k6.deep_view() =~~= seq![ascii_bytes("kpn"@), ascii_bytes("vodafone"@), ascii_bytes("t-mobile"@), ascii_bytes("ziggo"@), ascii_bytes("tele2"@)]);
    }
    push_entry(&mut t, lit_bytes("telecom"), k6);
    let mut k7: Vec<Vec<u8>> = Vec::new();
    k7.push(lit_bytes("ns"));
    k7.push(lit_bytes("ov"));
    k7.push(lit_bytes("trein"));
    k7.push(lit_bytes("bus"));
    k7.push(lit_bytes("tram"));
    k7.push(lit_bytes("metro"));
    k7.push(lit_bytes("benzine"));
    k7.push(lit_bytes("shell"));
    k7.push(lit_bytes("bp"));
    k7.push(lit_bytes("total"));
    proof {
        assert(k7.deep_view() =~~= seq![ascii_bytes("ns"@), ascii_bytes("ov"@), ascii_bytes("trein"@), ascii_bytes("bus"@), ascii_bytes("tram"@), ascii_bytes("metro"@), ascii_bytes("benzine"@), ascii_bytes("shell"@), ascii_bytes("bp"@), ascii_bytes("total"@)]);
    }
    push_entry(&mut t, lit_bytes("transport"), k7);
    let mut k8: Vec<Vec<u8>> = Vec::new();
    k8.push(lit_bytes("ziggo"));
    k8.push(lit_bytes("kpn"));
    k8.push(lit_bytes("t-mobile"));
    k8.push(lit_bytes("online"));
    proof {
        assert(k8.deep_view() =~~= seq![ascii_bytes("ziggo"@), ascii_bytes("kpn"@), ascii_bytes("t-mobile"@), ascii_bytes("online"@)]);
    }
    push_entry(&mut t, lit_bytes("internet"), k8);
    let mut k9: Vec<Vec<u8>> = Vec::new();
    k9.push(lit_bytes("salaris"));
    k9.push(lit_bytes("loon"));
    k9.push(lit_bytes("inkomen"));
    proof {
        assert(k9.deep_view() =~~= seq![ascii_bytes("salaris"@), ascii_bytes("loon"@), ascii_bytes("inkomen"@)]);
    }
    push_entry(&mut t, lit_bytes("salaris"), k9);
    let mut k10: Vec<Vec<u8>> = Vec::new();
    k10.push(lit_bytes("belasting"));
    k10.push(lit_bytes("toeslag"));
    k10.push(lit_bytes("douane"));
    proof {
        assert(k10.deep_view() =~~= seq![ascii_bytes("belasting"@), ascii_bytes("toeslag"@), ascii_bytes("douane"@)]);
    }
    push_entry(&mut t, lit_bytes("belasting"), k10);
    let mut k11: Vec<Vec<u8>> = Vec::new();
    k11.push(lit_bytes("netflix"));
    k11.push(lit_bytes("spotify"));
    k11.push(lit_bytes("videoland"));
    k11.push(lit_bytes("bol.com"));
    k11.push(lit_bytes("amazon"));
    k11.push(lit_bytes("coolblue"));
    proof {
        assert(k11.deep_view() =~~= seq![ascii_bytes("netflix"@), ascii_bytes("spotify"@), ascii_bytes("videoland"@), ascii_bytes("bol.com"@), ascii_bytes("amazon"@), ascii_bytes("coolblue"@)]);
    }
    push_entry(&mut t, lit_bytes("entertainment"), k11);
    let mut k12: Vec<Vec<u8>> = Vec::new();
    k12.push(lit_bytes("sportschool"));
    k12.push(lit_bytes("fitness"));
    k12.push(lit_bytes("gym"));
    k12.push(lit_bytes("basic-fit"));
    proof {
        assert(k12.deep_view() =~~= seq![ascii_bytes("sportschool"@), ascii_bytes("fitness"@), ascii_bytes("gym"@), ascii_bytes("basic-fit"@)]);
    }
    push_entry(&mut t, lit_bytes("sport"), k12);
    let mut k13: Vec<Vec<u8>> = Vec::new();
    k13.push(lit_bytes("h&m"));
    k13.push(lit_bytes("zara"));
    k13.push(lit_bytes("c&a"));
    k13.push(lit_bytes("we"));
    k13.push(lit_bytes("bijenkorf"));
    proof {
        assert(k13.deep_view() =~~= seq![ascii_bytes("h&m"@), ascii_bytes("zara"@), ascii_bytes("c&a"@), ascii_bytes("we"@), ascii_bytes("bijenkorf"@)]);
    }
    push_entry(&mut t, lit_bytes("kleding"), k13);
    let mut k14: Vec<Vec<u8>> = Vec::new();
    k14.push(lit_bytes("apotheek"));
    k14.push(lit_bytes("huisarts"));
    k14.push(lit_bytes("ziekenhuis"));
    k14.push(lit_bytes("tandarts"));
    proof {
        assert(k14.deep_view() =~~= seq![ascii_bytes("apotheek"@), ascii_bytes("huisarts"@), ascii_bytes("ziekenhuis"@), ascii_bytes("tandarts"@)]);
    }
    push_entry(&mut t, lit_bytes("gezondheid"), k14);
    let mut k15: Vec<Vec<u8>> = Vec::new();
    k15.push(lit_bytes("school"));
    k15.push(lit_bytes("universiteit"));
    k15.push(lit_bytes("studie"));
    k15.push(lit_bytes("les"));
    k15.push(lit_bytes("cursus"));
    proof {
        assert(k15.deep_view() =~~= seq![ascii_bytes("school"@), ascii_bytes("universiteit"@), ascii_bytes("studie"@), ascii_bytes("les"@), ascii_bytes("cursus"@)]);
    }
    push_entry(&mut t, lit_bytes("onderwijs"), k15);
    proof {
        assert(table_view(t@) =~= default_category_table_view());
    }
    t
}

/// The built-in tag families: ordered `(tag, keywords)` pairs.
pub open spec fn default_tag_rules_view() -> Seq<(Seq<u8>, Seq<Seq<u8>>)> {
    seq![
        (ascii_bytes("automatische incasso"@), seq![ascii_bytes("incasso"@), ascii_bytes("sepa"@)]),
        (ascii_bytes("iDEAL"@), seq![ascii_bytes("ideal"@)]),
        (ascii_bytes("pinbetaling"@), seq![ascii_bytes("pin"@)]),
        (ascii_bytes("online"@), seq![ascii_bytes("online"@), ascii_bytes("webshop"@)]),
        (ascii_bytes("contant"@), seq![ascii_bytes("cash"@), ascii_bytes("geldautomaat"@)]),
        (ascii_bytes("geschenk"@), seq![ascii_bytes("gift"@), ascii_bytes("cadeau"@)]),
    ]
}

/// Builds the built-in tag families.
#[verifier::rlimit(60)]
pub fn default_tag_rules() -> (r: Vec<(Vec<u8>, Vec<Vec<u8>>)>)
    ensures
        table_view(r@) == default_tag_rules_view(),
{
    proof {
        reveal_strlit("automatische incasso");
        reveal_strlit("cadeau");
        reveal_strlit("cash");
        reveal_strlit("contant");
        reveal_strlit("geldautomaat");
        reveal_strlit("geschenk");
        reveal_strlit("gift");
        reveal_strlit("iDEAL");
        reveal_strlit("ideal");
        reveal_strlit("incasso");
        reveal_strlit("online");
        reveal_strlit("pin");
        reveal_strlit("pinbetaling");
        reveal_strlit("sepa");
        reveal_strlit("webshop");
    }
    let mut t: Vec<(Vec<u8>, Vec<Vec<u8>>)> = Vec::new();
    let mut k0: Vec<Vec<u8>> = Vec::new();
    k0.push(lit_bytes("incasso"));
    k0.push(lit_bytes("sepa"));
    proof {
        assert(k0.deep_view() =~~= seq![ascii_bytes("incasso"@), ascii_bytes("sepa"@)]);
    }
    push_entry(&mut t, lit_bytes("automatische incasso"), k0);
    let mut k1: Vec<Vec<u8>> = Vec::new();
    k1.push(lit_bytes("ideal"));
    proof {
        assert(k1.deep_view() =~~= seq![ascii_bytes("ideal"@)]);
    }
    push_entry(&mut t, lit_bytes("iDEAL"), k1);
    let mut k2: Vec<Vec<u8>> = Vec::new();
    k2.push(lit_bytes("pin"));
    proof {
        assert(k2.deep_view() =~~= seq![ascii_bytes("pin"@)]);
    }
    push_entry(&mut t, lit_bytes("pinbetaling"), k2);
    let mut k3: Vec<Vec<u8>> = Vec::new();
    k3.push(lit_bytes("online"));
    k3.push(lit_bytes("webshop"));
    proof {
        assert(k3.deep_view() =~~= seq![ascii_bytes("online"@), ascii_bytes("webshop"@)]);
    }
    push_entry(&mut t, lit_bytes("online"), k3);
    let mut k4: Vec<Vec<u8>> = Vec::new();
    k4.push(lit_bytes("cash"));
    k4.push(lit_bytes("geldautomaat"));
    proof {
        assert(k4.deep_view() =~~= seq![ascii_bytes("cash"@), ascii_bytes("geldautomaat"@)]);
    }
    push_entry(&mut t, lit_bytes("contant"), k4);
    let mut k5: Vec<Vec<u8>> = Vec::new();
    k5.push(lit_bytes("gift"));
    k5.push(lit_bytes("cadeau"));
    proof {
        assert(k5.deep_view() =~~= seq![ascii_bytes("gift"@), ascii_bytes("cadeau"@)]);
    }
    push_entry(&mut t, lit_bytes("geschenk"), k5);
    proof {
        assert(table_view(t@) =~= default_tag_rules_view());
    }
    t
}


// ---------------------------------------------------------------------------
// Public heuristics
// ---------------------------------------------------------------------------

/// Best-guess category id for a description, from the built-in table.
pub fn auto_categorize(description: &[u8]) -> (r: Option<Vec<u8>>)
    ensures
        opt_bytes_view(r) == categorize_spec(
            default_category_table_view(),
            to_lower(description@),
        ),
{
    let table = default_category_table();
    categorize_with(&table, description)
}

/// All matching tags of a text against an ordered rule table; the text is
/// lower-cased before matching.
pub fn extract_tags_with(rules: &Vec<(Vec<u8>, Vec<Vec<u8>>)>, text: &[u8]) -> (r: Vec<Vec<u8>>)
    ensures
        r.deep_view() == tags_spec(table_view(rules@), to_lower(text@)),
{
    let lower = lower_bytes(text);
    tags_lowered(rules, lower.as_slice())
}

/// Tags of a row from the built-in tag families, scanned over the joined
/// counterparty, mutation-kind and memo fields.
pub fn extract_tags(naam: &[u8], mutatiesoort: &[u8], mededelingen: &[u8]) -> (r: Vec<Vec<u8>>)
    ensures
        r.deep_view() == tags_spec(
            default_tag_rules_view(),
            to_lower(joined3(naam@, mutatiesoort@, mededelingen@)),
        ),
{
    let rules = default_tag_rules();
    let text = join3(naam, mutatiesoort, mededelingen);
    extract_tags_with(&rules, text.as_slice())
}

/// Keywords whose presence marks a transaction as recurring.
pub open spec fn recurring_spec(lower: Seq<u8>) -> bool {
    ||| contains_seq(lower, ascii_bytes("incasso"@))
    ||| contains_seq(lower, ascii_bytes("periodiek"@))
    ||| contains_seq(lower, ascii_bytes("maandelijks"@))
    ||| contains_seq(lower, ascii_bytes("kwartaal"@))
    ||| contains_seq(lower, ascii_bytes("jaarlijks"@))
    ||| contains_seq(lower, ascii_bytes("abonnement"@))
    ||| contains_seq(lower, ascii_bytes("verzekering"@))
}

/// Whether the joined counterparty and mutation-kind text carries a
/// periodic-billing marker.  The recurring flag and the frequency label
/// use different keyword sets on purpose: a row can be flagged recurring
/// without carrying any frequency phrase.
pub fn is_recurring_transaction(naam: &[u8], mutatiesoort: &[u8]) -> (r: bool)
    ensures
        r == recurring_spec(to_lower(joined2(naam@, mutatiesoort@))),
{
    proof {
        reveal_strlit("incasso");
        reveal_strlit("periodiek");
        reveal_strlit("maandelijks");
        reveal_strlit("kwartaal");
        reveal_strlit("jaarlijks");
        reveal_strlit("abonnement");
        reveal_strlit("verzekering");
    }
    let text = join2(naam, mutatiesoort);
    let lower = lower_bytes(text.as_slice());
    let l = lower.as_slice();
    let k0 = lit_bytes("incasso");
    if contains_bytes(l, k0.as_slice()) {
        return true;
    }
    let k1 = lit_bytes("periodiek");
    if contains_bytes(l, k1.as_slice()) {
        return true;
    }
    let k2 = lit_bytes("maandelijks");
    if contains_bytes(l, k2.as_slice()) {
        return true;
    }
    let k3 = lit_bytes("kwartaal");
    if contains_bytes(l, k3.as_slice()) {
        return true;
    }
    let k4 = lit_bytes("jaarlijks");
    if contains_bytes(l, k4.as_slice()) {
        return true;
    }
    let k5 = lit_bytes("abonnement");
    if contains_bytes(l, k5.as_slice()) {
        return true;
    }
    let k6 = lit_bytes("verzekering");
    contains_bytes(l, k6.as_slice())
}

/// The frequency phrase found in a description, if any: monthly before
/// weekly before quarterly before yearly, as the phrases are tested in
/// that order.
pub open spec fn frequency_spec(lower: Seq<u8>) -> Option<Frequency> {
    if contains_seq(lower, ascii_bytes("maandelijks"@)) || contains_seq(
        lower,
        ascii_bytes("per maand"@),
    ) {
        Some(Frequency::Monthly)
    } else if contains_seq(lower, ascii_bytes("wekelijks"@)) || contains_seq(
        lower,
        ascii_bytes("per week"@),
    ) {
        Some(Frequency::Weekly)
    } else if contains_seq(lower, ascii_bytes("kwartaal"@)) || contains_seq(
        lower,
        ascii_bytes("per kwartaal"@),
    ) {
        Some(Frequency::Quarterly)
    } else if contains_seq(lower, ascii_bytes("jaarlijks"@)) || contains_seq(
        lower,
        ascii_bytes("per jaar"@),
    ) {
        Some(Frequency::Yearly)
    } else {
        None
    }
}

/// Detects an explicit frequency phrase in the description.
pub fn detect_recurring_frequency(description: &[u8]) -> (r: Option<Frequency>)
    ensures
        r == frequency_spec(to_lower(description@)),
{
    proof {
        reveal_strlit("maandelijks");
        reveal_strlit("per maand");
        reveal_strlit("wekelijks");
        reveal_strlit("per week");
        reveal_strlit("kwartaal");
        reveal_strlit("per kwartaal");
        reveal_strlit("jaarlijks");
        reveal_strlit("per jaar");
    }
    let lower = lower_bytes(description);
    let l = lower.as_slice();
    let k0 = lit_bytes("maandelijks");
    let k1 = lit_bytes("per maand");
    if contains_bytes(l, k0.as_slice()) || contains_bytes(l, k1.as_slice()) {
        return Some(Frequency::Monthly);
    }
    let k2 = lit_bytes("wekelijks");
    let k3 = lit_bytes("per week");
    if contains_bytes(l, k2.as_slice()) || contains_bytes(l, k3.as_slice()) {
        return Some(Frequency::Weekly);
    }
    let k4 = lit_bytes("kwartaal");
    let k5 = lit_bytes("per kwartaal");
    if contains_bytes(l, k4.as_slice()) || contains_bytes(l, k5.as_slice()) {
        return Some(Frequency::Quarterly);
    }
    let k6 = lit_bytes("jaarlijks");
    let k7 = lit_bytes("per jaar");
    if contains_bytes(l, k6.as_slice()) || contains_bytes(l, k7.as_slice()) {
        return Some(Frequency::Yearly);
    }
    None
}

/// Categorization law: the category of a text is the name of the first
/// entry, in table order, one of whose keywords occurs in it; when no
/// entry matches, there is no category.  The result is a function of the
/// table and the text alone, so re-running categorization on the same
/// description always yields the same category.
pub proof fn lemma_categorize_first_match(table: Seq<(Seq<u8>, Seq<Seq<u8>>)>, text: Seq<u8>)
    ensures
        match categorize_spec(table, text) {
            Some(c) => exists|i: int|
                0 <= i < table.len() && #[trigger] table[i].0 == c && any_kw(text, table[i].1)
                    && (forall|j: int| 0 <= j < i ==> !any_kw(text, #[trigger] table[j].1)),
            None => forall|i: int| 0 <= i < table.len() ==> !any_kw(text, #[trigger] table[i].1),
        },
    decreases table.len(),
{
    if table.len() == 0 {
    } else if any_kw(text, table.first().1) {
        let c = table[0].0;
        assert(categorize_spec(table, text) == Some(c));
        assert(0 <= 0 < table.len() && table[0].0 == c && any_kw(text, table[0].1) && (forall|
            j: int,
        | 0 <= j < 0 ==> !any_kw(text, #[trigger] table[j].1)));
    } else {
        let t = table.drop_first();
        lemma_categorize_first_match(t, text);
        assert(forall|j: int| 1 <= j < table.len() ==> table[j] == t[j - 1]);
        match categorize_spec(table, text) {
            Some(c) => {
                let i = choose|i: int|
                    0 <= i < t.len() && #[trigger] t[i].0 == c && any_kw(text, t[i].1) && (forall|
                        j: int,
                    | 0 <= j < i ==> !any_kw(text, #[trigger] t[j].1));
                assert(table[i + 1].0 == c && any_kw(text, table[i + 1].1));
                assert(forall|j: int| 0 <= j < i + 1 ==> !any_kw(text, #[trigger] table[j].1)) by {
                    assert(forall|j: int| 1 <= j < i + 1 ==> table[j].1 == t[j - 1].1);
                }
            },
            None => {},
        }
    }
}

} // verus!
