//! Routing of a token stream to layout zones.
//!
//! A stream is a list of `key=value` tokens. The bare keys `ctx` and `ns` switch the
//! current context and namespace; every other token is routed to the zone
//! `context:namespace` (a token's own namespace prefix wins over `ns`). A zone's
//! content is its last `content` or `text` token when there is one, and otherwise its
//! `key: value` lines sorted by key.
use vstd::prelude::*;

use crate::error::LayoutError;
use crate::registry::{ZoneContent, ZoneId};
use crate::text::{chars_of, push_char, push_chars};

verus! {

/// One token of a stream.
#[derive(Debug, Clone)]
pub struct ZoneToken {
    /// The namespace written as the token's prefix, if any.
    pub namespace: Option<String>,
    pub key: String,
    /// The value as written in the stream.
    pub value: String,
    /// The value with its escape sequences resolved.
    pub unescaped: String,
    /// The token as written in the stream, for error messages.
    pub text: String,
}

/// Materialised token update for a layout zone.
#[derive(Debug, Clone, PartialEq, Eq)]
pub struct ZoneTokenUpdate {
    pub zone_id: ZoneId,
    pub content: ZoneContent,
}

/// Routes token streams to zone updates.
#[derive(Debug)]
pub struct ZoneTokenRouter {
    default_context: String,
}

// ---------------------------------------------------------------------------
// The model.

/// Lexicographic order on character sequences, by code point: the order of
/// `String`'s `cmp`.
pub open spec fn lex_lt(a: Seq<char>, b: Seq<char>) -> bool
    decreases a.len(),
{
    if a.len() == 0 {
        b.len() > 0
    } else if b.len() == 0 {
        false
    } else if a[0] != b[0] {
        (a[0] as int) < (b[0] as int)
    } else {
        lex_lt(a.drop_first(), b.drop_first())
    }
}

/// What a zone has gathered so far.
pub struct ZoneAcc {
    /// The last `content` or `text` value.
    pub override_content: Option<Seq<char>>,
    /// The other `(key, value)` pairs, in stream order.
    pub pairs: Seq<(Seq<char>, Seq<char>)>,
}

/// The router's state after a prefix of the stream.
pub struct RouteState {
    pub context: Seq<char>,
    pub namespace: Option<Seq<char>>,
    pub zones: Map<Seq<char>, ZoneAcc>,
}

pub open spec fn empty_acc() -> ZoneAcc {
    ZoneAcc { override_content: None, pairs: Seq::empty() }
}

/// Whether `key` replaces the whole content of its zone.
pub open spec fn is_override_key(key: Seq<char>) -> bool {
    key == "content"@ || key == "text"@
}

pub open spec fn acc_push(acc: ZoneAcc, key: Seq<char>, value: Seq<char>) -> ZoneAcc {
    if is_override_key(key) {
        ZoneAcc { override_content: Some(value), pairs: acc.pairs }
    } else {
        ZoneAcc { override_content: acc.override_content, pairs: acc.pairs.push((key, value)) }
    }
}

/// Whether `t` is the bare directive `word` (no namespace prefix).
pub open spec fn is_directive(t: ZoneToken, word: Seq<char>) -> bool {
    t.namespace is None && t.key@ == word
}

/// The namespace a content token goes to.
pub open spec fn token_namespace(st: RouteState, t: ZoneToken) -> Option<Seq<char>> {
    match t.namespace {
        Some(n) => Some(n@),
        None => st.namespace,
    }
}

/// The zone id `context:namespace`.
pub open spec fn zone_key(context: Seq<char>, namespace: Seq<char>) -> Seq<char> {
    context + seq![':'] + namespace
}

/// Whether routing `t` fails: a content token with no namespace at all.
pub open spec fn route_fails(st: RouteState, t: ZoneToken) -> bool {
    &&& !is_directive(t, "ctx"@)
    &&& !is_directive(t, "ns"@)
    &&& token_namespace(st, t) is None
}

/// The state after routing `t` (when it does not fail).
pub open spec fn route_step(st: RouteState, t: ZoneToken) -> RouteState {
    if is_directive(t, "ctx"@) {
        RouteState { context: t.value@, namespace: st.namespace, zones: st.zones }
    } else if is_directive(t, "ns"@) {
        RouteState { context: st.context, namespace: Some(t.value@), zones: st.zones }
    } else {
        let zid = zone_key(st.context, token_namespace(st, t)->0);
        let acc = if st.zones.contains_key(zid) {
            st.zones[zid]
        } else {
            empty_acc()
        };
        RouteState {
            context: st.context,
            namespace: st.namespace,
            zones: st.zones.insert(zid, acc_push(acc, t.key@, t.unescaped@)),
        }
    }
}

/// The error message for a token without namespace.
pub open spec fn missing_namespace_message(t: ZoneToken) -> Seq<char> {
    "missing namespace for token "@ + t.text@
}

/// The state after routing `toks` from the context `default`, or the message of the
/// first failure.
pub open spec fn route_prefix(default: Seq<char>, toks: Seq<ZoneToken>) -> Result<
    RouteState,
    Seq<char>,
>
    decreases toks.len(),
{
    if toks.len() == 0 {
        Ok(RouteState { context: default, namespace: None, zones: Map::empty() })
    } else {
        match route_prefix(default, toks.drop_last()) {
            Err(m) => Err(m),
            Ok(st) => if route_fails(st, toks.last()) {
                Err(missing_namespace_message(toks.last()))
            } else {
                Ok(route_step(st, toks.last()))
            },
        }
    }
}

/// Inserts `x` after every element whose key is not greater than its own.
pub open spec fn insert_by_key(s: Seq<(Seq<char>, Seq<char>)>, x: (Seq<char>, Seq<char>)) -> Seq<
    (Seq<char>, Seq<char>),
>
    decreases s.len(),
{
    if s.len() == 0 {
        seq![x]
    } else if lex_lt(x.0, s[0].0) {
        seq![x] + s
    } else {
        seq![s[0]] + insert_by_key(s.drop_first(), x)
    }
}

/// Stable sort by key: pairs with equal keys keep their order.
pub open spec fn sort_by_key(s: Seq<(Seq<char>, Seq<char>)>) -> Seq<(Seq<char>, Seq<char>)>
    decreases s.len(),
{
    if s.len() == 0 {
        s
    } else {
        insert_by_key(sort_by_key(s.drop_last()), s.last())
    }
}

/// The line `key: value`.
pub open spec fn pair_line(p: (Seq<char>, Seq<char>)) -> Seq<char> {
    p.0 + seq![':', ' '] + p.1
}

/// The lines of `s`, joined by newlines.
pub open spec fn join_lines(s: Seq<(Seq<char>, Seq<char>)>) -> Seq<char>
    decreases s.len(),
{
    if s.len() == 0 {
        Seq::empty()
    } else if s.len() == 1 {
        pair_line(s[0])
    } else {
        join_lines(s.drop_last()) + seq!['\n'] + pair_line(s.last())
    }
}

/// The content a zone ends up with.
pub open spec fn built_content(acc: ZoneAcc) -> Seq<char> {
    match acc.override_content {
        Some(c) => c,
        None => join_lines(sort_by_key(acc.pairs)),
    }
}

/// `out` lists the zones of `zones`, each once, by increasing id, with their content.
pub open spec fn lists_zones(
    zones: Map<Seq<char>, ZoneAcc>,
    out: Seq<(Seq<char>, Seq<char>)>,
) -> bool {
    &&& forall|i: int, j: int| 0 <= i < j < out.len() ==> lex_lt(#[trigger] out[i].0, #[trigger] out[j].0)
    &&& forall|i: int|
        0 <= i < out.len() ==> zones.contains_key(#[trigger] out[i].0) && out[i].1 == built_content(
            zones[out[i].0],
        )
    &&& forall|z: Seq<char>| #[trigger]
        zones.contains_key(z) ==> exists|i: int| 0 <= i < out.len() && out[i].0 == z
}

/// An update as a pair of views.
pub open spec fn update_view(u: ZoneTokenUpdate) -> (Seq<char>, Seq<char>) {
    (u.zone_id@, u.content@)
}

// ---------------------------------------------------------------------------
// Laws of the order.

/// No sequence comes before itself.
pub proof fn lemma_lex_irreflexive(a: Seq<char>)
    ensures
        !lex_lt(a, a),
    decreases a.len(),
{
    if a.len() > 0 {
        lemma_lex_irreflexive(a.drop_first());
    }
}

/// The order is transitive.
pub proof fn lemma_lex_transitive(a: Seq<char>, b: Seq<char>, c: Seq<char>)
    requires
        lex_lt(a, b),
        lex_lt(b, c),
    ensures
        lex_lt(a, c),
    decreases a.len(),
{
    if a.len() > 0 && b.len() > 0 && c.len() > 0 && a[0] == b[0] && b[0] == c[0] {
        lemma_lex_transitive(a.drop_first(), b.drop_first(), c.drop_first());
    }
}

/// Of two different sequences, one comes first.
pub proof fn lemma_lex_total(a: Seq<char>, b: Seq<char>)
    requires
        a != b,
    ensures
        lex_lt(a, b) || lex_lt(b, a),
    decreases a.len(),
{
    if a.len() > 0 && b.len() > 0 && a[0] == b[0] {
        if a.drop_first() == b.drop_first() {
            assert(a =~= seq![a[0]] + a.drop_first());
            assert(b =~= seq![b[0]] + b.drop_first());
        }
        lemma_lex_total(a.drop_first(), b.drop_first());
    } else if a.len() == 0 && b.len() == 0 {
        assert(a =~= b);
    }
}

// ---------------------------------------------------------------------------
// Executable pieces.

fn copy_chars(v: &Vec<char>) -> (r: Vec<char>)
    ensures
        r@ == v@,
{
    let mut r: Vec<char> = Vec::new();
    let mut i: usize = 0;
    while i < v.len()
        invariant
            i <= v.len(),
            r@ == v@.take(i as int),
        decreases v.len() - i,
    {
        r.push(v[i]);
        assert(v@.take(i as int + 1) == v@.take(i as int).push(v@[i as int]));
        i += 1;
    }
    assert(v@.take(v.len() as int) == v@);
    r
}

fn string_of(v: &Vec<char>) -> (r: String)
    ensures
        r@ == v@,
{
    let mut s = String::new();
    push_chars(&mut s, v);
    s
}

/// Whether `a` comes before `b`.
fn lex_less(a: &Vec<char>, b: &Vec<char>) -> (r: bool)
    ensures
        r == lex_lt(a@, b@),
{
    let mut i: usize = 0;
    assert(a@.skip(0) =~= a@);
    assert(b@.skip(0) =~= b@);
    while i < a.len() && i < b.len()
        invariant
            i <= a.len(),
            i <= b.len(),
            lex_lt(a@, b@) == lex_lt(a@.skip(i as int), b@.skip(i as int)),
        decreases a.len() - i,
    {
        let x = a[i];
        let y = b[i];
        assert(a@.skip(i as int)[0] == x && b@.skip(i as int)[0] == y);
        if x != y {
            return x < y;
        }
        assert(a@.skip(i as int).drop_first() == a@.skip(i as int + 1));
        assert(b@.skip(i as int).drop_first() == b@.skip(i as int + 1));
        i += 1;
    }
    i < b.len()
}

/// Whether `a` comes before `b` in the order of `String`'s `cmp`.
pub fn lex_less_strings(a: &String, b: &String) -> (r: bool)
    ensures
        r == lex_lt(a@, b@),
{
    lex_less(&chars_of(a.as_str()), &chars_of(b.as_str()))
}

/// Exec form of what a zone has gathered.
struct Accumulator {
    zone_id: Vec<char>,
    override_content: Option<Vec<char>>,
    pairs: Vec<(Vec<char>, Vec<char>)>,
}

spec fn pair_view(p: (Vec<char>, Vec<char>)) -> (Seq<char>, Seq<char>) {
    (p.0@, p.1@)
}

spec fn pairs_view(s: Seq<(Vec<char>, Vec<char>)>) -> Seq<(Seq<char>, Seq<char>)> {
    s.map_values(|p: (Vec<char>, Vec<char>)| pair_view(p))
}

spec fn acc_view(a: Accumulator) -> ZoneAcc {
    ZoneAcc {
        override_content: match a.override_content {
            Some(c) => Some(c@),
            None => None,
        },
        pairs: pairs_view(a.pairs@),
    }
}

/// `accs` holds the zones of `zones`, each once, by increasing id.
spec fn holds_zones(accs: Seq<Accumulator>, zones: Map<Seq<char>, ZoneAcc>) -> bool {
    &&& forall|i: int, j: int|
        0 <= i < j < accs.len() ==> lex_lt(#[trigger] accs[i].zone_id@, #[trigger] accs[j].zone_id@)
    &&& forall|i: int|
        0 <= i < accs.len() ==> zones.contains_key(#[trigger] accs[i].zone_id@) && zones[accs[i].zone_id@]
            == acc_view(accs[i])
    &&& forall|z: Seq<char>| #[trigger]
        zones.contains_key(z) ==> exists|i: int| 0 <= i < accs.len() && accs[i].zone_id@ == z
}

fn acc_add(acc: &mut Accumulator, is_override: bool, key: Vec<char>, value: Vec<char>)
    requires
        is_override == is_override_key(key@),
    ensures
        final(acc).zone_id@ == old(acc).zone_id@,
        acc_view(*final(acc)) == acc_push(acc_view(*old(acc)), key@, value@),
{
    let ghost k = key@;
    let ghost v = value@;
    if is_override {
        acc.override_content = Some(value);
    } else {
        acc.pairs.push((key, value));
        assert(pairs_view(acc.pairs@) =~= pairs_view(old(acc).pairs@).push((k, v)));
    }
}

/// Adds `(key, value)` to the zone `zid`, creating it in its place if it is new.
fn upsert(
    accs: &mut Vec<Accumulator>,
    zid: Vec<char>,
    is_override: bool,
    key: Vec<char>,
    value: Vec<char>,
    Ghost(zones): Ghost<Map<Seq<char>, ZoneAcc>>,
)
    requires
        holds_zones(old(accs)@, zones),
        is_override == is_override_key(key@),
    ensures
        holds_zones(
            final(accs)@,
            zones.insert(
                zid@,
                acc_push(
                    if zones.contains_key(zid@) {
                        zones[zid@]
                    } else {
                        empty_acc()
                    },
                    key@,
                    value@,
                ),
            ),
        ),
{
    let ghost old_accs = accs@;
    let ghost new_acc = acc_push(
        if zones.contains_key(zid@) {
            zones[zid@]
        } else {
            empty_acc()
        },
        key@,
        value@,
    );
    let ghost new_zones = zones.insert(zid@, new_acc);
    let n = accs.len();
    let mut j: usize = 0;
    while j < n
        invariant
            n == accs.len(),
            accs@ == old_accs,
            j <= n,
            forall|i: int| 0 <= i < j ==> lex_lt(#[trigger] accs@[i].zone_id@, zid@),
        ensures
            j <= n,
            forall|i: int| 0 <= i < j ==> lex_lt(#[trigger] accs@[i].zone_id@, zid@),
            j < n ==> !lex_lt(accs@[j as int].zone_id@, zid@),
        decreases n - j,
    {
        if !lex_less(&accs[j].zone_id, &zid) {
            break;
        }
        j += 1;
    }
    let found = j < n && !lex_less(&zid, &accs[j].zone_id);
    if found {
        proof {
            if accs@[j as int].zone_id@ != zid@ {
                lemma_lex_total(accs@[j as int].zone_id@, zid@);
            }
        }
        let mut acc = accs.remove(j);
        assert(acc.zone_id@ == zid@);
        acc_add(&mut acc, is_override, key, value);
        accs.insert(j, acc);
        assert(accs@ == old_accs.update(j as int, accs@[j as int]));
        assert forall|z: Seq<char>| #[trigger] new_zones.contains_key(z) implies exists|i: int|
            0 <= i < accs@.len() && accs@[i].zone_id@ == z by {
            if z != zid@ {
                let i = choose|i: int| 0 <= i < old_accs.len() && old_accs[i].zone_id@ == z;
                assert(accs@[i].zone_id@ == z);
            } else {
                assert(accs@[j as int].zone_id@ == z);
            }
        }
        assert forall|i: int|
            0 <= i < accs@.len() implies new_zones.contains_key(#[trigger] accs@[i].zone_id@)
            && new_zones[accs@[i].zone_id@] == acc_view(accs@[i]) by {
            if i != j {
                assert(accs@[i] == old_accs[i]);
                if old_accs[i].zone_id@ == zid@ {
                    lemma_lex_irreflexive(zid@);
                    if i < j {
                        assert(lex_lt(old_accs[i].zone_id@, old_accs[j as int].zone_id@));
                    } else {
                        assert(lex_lt(old_accs[j as int].zone_id@, old_accs[i].zone_id@));
                    }
                }
            }
        }
    } else {
        proof {
            if j < n {
                assert(lex_lt(zid@, accs@[j as int].zone_id@));
            }
            if zones.contains_key(zid@) {
                let i = choose|i: int| 0 <= i < old_accs.len() && old_accs[i].zone_id@ == zid@;
                lemma_lex_irreflexive(zid@);
                if i >= j {
                    if i > j {
                        assert(lex_lt(old_accs[j as int].zone_id@, old_accs[i].zone_id@));
                        lemma_lex_transitive(zid@, old_accs[j as int].zone_id@, zid@);
                    }
                }
                assert(false);
            }
        }
        let mut acc = Accumulator { zone_id: zid, override_content: None, pairs: Vec::new() };
        assert(acc_view(acc) == empty_acc()) by {
            assert(pairs_view(acc.pairs@) =~= Seq::empty());
        }
        acc_add(&mut acc, is_override, key, value);
        accs.insert(j, acc);
        assert forall|a: int, b: int|
            0 <= a < b < accs@.len() implies lex_lt(
            #[trigger] accs@[a].zone_id@,
            #[trigger] accs@[b].zone_id@,
        ) by {
            if a < j && b == j {
            } else if a < j && b > j {
                assert(accs@[b] == old_accs[b - 1]);
            } else if a == j && b > j {
                assert(accs@[b] == old_accs[b - 1]);
                if b - 1 > j {
                    assert(lex_lt(old_accs[j as int].zone_id@, old_accs[b - 1].zone_id@));
                    lemma_lex_transitive(zid@, old_accs[j as int].zone_id@, old_accs[b - 1].zone_id@);
                }
            } else if a > j {
                assert(accs@[a] == old_accs[a - 1]);
                assert(accs@[b] == old_accs[b - 1]);
            }
        }
        assert forall|z: Seq<char>| #[trigger] new_zones.contains_key(z) implies exists|i: int|
            0 <= i < accs@.len() && accs@[i].zone_id@ == z by {
            if z != zid@ {
                let i = choose|i: int| 0 <= i < old_accs.len() && old_accs[i].zone_id@ == z;
                if i < j {
                    assert(accs@[i].zone_id@ == z);
                } else {
                    assert(accs@[i + 1].zone_id@ == z);
                }
            } else {
                assert(accs@[j as int].zone_id@ == z);
            }
        }
        assert forall|i: int|
            0 <= i < accs@.len() implies new_zones.contains_key(#[trigger] accs@[i].zone_id@)
            && new_zones[accs@[i].zone_id@] == acc_view(accs@[i]) by {
            if i < j {
                assert(accs@[i] == old_accs[i]);
                lemma_lex_irreflexive(zid@);
            } else if i > j {
                assert(accs@[i] == old_accs[i - 1]);
                lemma_lex_irreflexive(zid@);
                if i - 1 > j {
                    assert(lex_lt(old_accs[j as int].zone_id@, old_accs[i - 1].zone_id@));
                    lemma_lex_transitive(zid@, old_accs[j as int].zone_id@, old_accs[i - 1].zone_id@);
                }
            }
        }
    }
}


/// Inserting by key at `j`, where `j` is past every element whose key is not greater
/// than `x`'s and before the first greater one.
proof fn lemma_insert_by_key_at(s: Seq<(Seq<char>, Seq<char>)>, x: (Seq<char>, Seq<char>), j: int)
    requires
        0 <= j <= s.len(),
        forall|k: int| 0 <= k < j ==> !lex_lt(x.0, #[trigger] s[k].0),
        j < s.len() ==> lex_lt(x.0, s[j].0),
    ensures
        insert_by_key(s, x) == s.insert(j, x),
    decreases j,
{
    if j == 0 {
        if s.len() == 0 {
            assert(s.insert(0, x) =~= seq![x]);
        } else {
            assert(s.insert(0, x) =~= seq![x] + s);
        }
    } else {
        assert(!lex_lt(x.0, s[0].0));
        let t = s.drop_first();
        assert forall|k: int| 0 <= k < j - 1 implies !lex_lt(x.0, #[trigger] t[k].0) by {
            assert(t[k] == s[k + 1]);
        }
        lemma_insert_by_key_at(t, x, j - 1);
        assert(seq![s[0]] + t.insert(j - 1, x) =~= s.insert(j, x));
    }
}

/// The pairs of `pairs`, stably sorted by key.
fn sorted_pairs(pairs: &Vec<(Vec<char>, Vec<char>)>) -> (r: Vec<(Vec<char>, Vec<char>)>)
    ensures
        pairs_view(r@) == sort_by_key(pairs_view(pairs@)),
{
    let mut out: Vec<(Vec<char>, Vec<char>)> = Vec::new();
    let mut i: usize = 0;
    assert(pairs_view(pairs@.take(0)) =~= Seq::empty());
    assert(pairs_view(out@) =~= Seq::empty());
    while i < pairs.len()
        invariant
            i <= pairs.len(),
            pairs_view(out@) == sort_by_key(pairs_view(pairs@.take(i as int))),
        decreases pairs.len() - i,
    {
        let key = copy_chars(&pairs[i].0);
        let value = copy_chars(&pairs[i].1);
        let ghost x = (key@, value@);
        let ghost before = pairs_view(out@);
        let n = out.len();
        let mut j: usize = 0;
        while j < n
            invariant
                n == out.len(),
                pairs_view(out@) == before,
                j <= n,
                forall|k: int| 0 <= k < j ==> !lex_lt(key@, #[trigger] out@[k].0@),
            ensures
                j <= n,
                forall|k: int| 0 <= k < j ==> !lex_lt(key@, #[trigger] out@[k].0@),
                j < n ==> lex_lt(key@, out@[j as int].0@),
            decreases n - j,
        {
            if lex_less(&key, &out[j].0) {
                break;
            }
            j += 1;
        }
        proof {
            assert forall|k: int| 0 <= k < j implies !lex_lt(x.0, #[trigger] before[k].0) by {
                assert(before[k] == pair_view(out@[k]));
            }
            if j < n {
                assert(before[j as int] == pair_view(out@[j as int]));
            }
            lemma_insert_by_key_at(before, x, j as int);
        }
        out.insert(j, (key, value));
        proof {
            assert(pairs_view(out@) =~= before.insert(j as int, x));
            let v = pairs_view(pairs@.take(i as int + 1));
            assert(v.drop_last() =~= pairs_view(pairs@.take(i as int)));
            assert(v.last() == x);
        }
        i += 1;
    }
    assert(pairs@.take(pairs.len() as int) =~= pairs@);
    out
}

/// The lines `key: value` of `pairs`, joined by newlines.
fn join_pairs(pairs: &Vec<(Vec<char>, Vec<char>)>) -> (r: String)
    ensures
        r@ == join_lines(pairs_view(pairs@)),
{
    let mut out = String::new();
    let mut i: usize = 0;
    assert(pairs_view(pairs@.take(0)) =~= Seq::empty());
    while i < pairs.len()
        invariant
            i <= pairs.len(),
            out@ == join_lines(pairs_view(pairs@.take(i as int))),
        decreases pairs.len() - i,
    {
        let ghost before = out@;
        if i > 0 {
            push_char(&mut out, '\n');
        }
        push_chars(&mut out, &pairs[i].0);
        push_char(&mut out, ':');
        push_char(&mut out, ' ');
        push_chars(&mut out, &pairs[i].1);
        proof {
            let v = pairs_view(pairs@.take(i as int + 1));
            assert(v.drop_last() =~= pairs_view(pairs@.take(i as int)));
            assert(v.last() == pair_view(pairs@[i as int]));
            if i == 0 {
                assert(out@ =~= pair_line(v[0]));
            } else {
                assert(out@ =~= before + seq!['\n'] + pair_line(v.last()));
            }
        }
        i += 1;
    }
    assert(pairs@.take(pairs.len() as int) =~= pairs@);
    out
}

/// The content a zone ends up with.
fn build_content(acc: &Accumulator) -> (r: String)
    ensures
        r@ == built_content(acc_view(*acc)),
{
    match &acc.override_content {
        Some(c) => string_of(c),
        None => {
            let sorted = sorted_pairs(&acc.pairs);
            join_pairs(&sorted)
        },
    }
}

/// Once a prefix fails, the whole stream fails with the same message.
proof fn lemma_route_error_persists(default: Seq<char>, toks: Seq<ZoneToken>, k: int)
    requires
        0 <= k <= toks.len(),
        route_prefix(default, toks.take(k)) is Err,
    ensures
        route_prefix(default, toks) == route_prefix(default, toks.take(k)),
    decreases toks.len() - k,
{
    if k < toks.len() {
        assert(toks.take(k + 1).drop_last() =~= toks.take(k));
        lemma_route_error_persists(default, toks, k + 1);
    } else {
        assert(toks.take(k) =~= toks);
    }
}

impl ZoneTokenRouter {
    /// The context that routing starts in.
    pub closed spec fn context(&self) -> Seq<char> {
        self.default_context@
    }

    /// A router whose streams start in the context `app`.
    pub fn new() -> (r: Self)
        ensures
            r.context() == "app"@,
    {
        ZoneTokenRouter { default_context: String::from_str("app") }
    }

    /// A router whose streams start in `context`.
    pub fn with_default_context(context: &str) -> (r: Self)
        ensures
            r.context() == context@,
    {
        ZoneTokenRouter { default_context: String::from_str(context) }
    }

    /// Routes `tokens` to zone updates: one per zone that a token reached, by
    /// increasing zone id. Fails on the first content token that has no namespace.
    pub fn route_tokens(&self, tokens: &Vec<ZoneToken>) -> (r: Result<Vec<ZoneTokenUpdate>, LayoutError>)
        ensures
            match route_prefix(self.context(), tokens@) {
                Ok(st) => r matches Ok(v) && lists_zones(
                    st.zones,
                    v@.map_values(|u: ZoneTokenUpdate| update_view(u)),
                ),
                Err(m) => r matches Err(LayoutError::TokenRouting(msg)) && msg@ == m,
            },
    {
        let ghost default = self.default_context@;
        let ctx_word = String::from_str("ctx");
        let ns_word = String::from_str("ns");
        let content_word = String::from_str("content");
        let text_word = String::from_str("text");
        let mut context = self.default_context.clone();
        let mut namespace: Option<String> = None;
        let mut accs: Vec<Accumulator> = Vec::new();
        let ghost mut st = RouteState { context: default, namespace: None, zones: Map::empty() };
        assert(tokens@.take(0) =~= Seq::<ZoneToken>::empty());
        let mut k: usize = 0;
        while k < tokens.len()
            invariant
                k <= tokens.len(),
                default == self.default_context@,
                route_prefix(default, tokens@.take(k as int)) == Ok::<RouteState, Seq<char>>(st),
                context@ == st.context,
                match namespace {
                    Some(n) => st.namespace == Some(n@),
                    None => st.namespace is None,
                },
                holds_zones(accs@, st.zones),
                ctx_word@ == "ctx"@,
                ns_word@ == "ns"@,
                content_word@ == "content"@,
                text_word@ == "text"@,
            decreases tokens.len() - k,
        {
            let t = &tokens[k];
            assert(tokens@.take(k as int + 1).drop_last() =~= tokens@.take(k as int));
            assert(tokens@.take(k as int + 1).last() == tokens@[k as int]);
            if t.namespace.is_none() && t.key == ctx_word {
                context = t.value.clone();
                proof {
                    st = route_step(st, tokens@[k as int]);
                }
            } else if t.namespace.is_none() && t.key == ns_word {
                namespace = Some(t.value.clone());
                proof {
                    st = route_step(st, tokens@[k as int]);
                }
            } else {
                let ns: String = match &t.namespace {
                    Some(n) => n.clone(),
                    None => match &namespace {
                        Some(n) => n.clone(),
                        None => {
                            let mut msg = String::from_str("missing namespace for token ");
                            push_chars(&mut msg, &chars_of(t.text.as_str()));
                            proof {
                                lemma_route_error_persists(default, tokens@, k as int + 1);
                            }
                            return Err(LayoutError::TokenRouting(msg));
                        },
                    },
                };
                let mut zone_text = context.clone();
                push_char(&mut zone_text, ':');
                push_chars(&mut zone_text, &chars_of(ns.as_str()));
                let zid = chars_of(zone_text.as_str());
                assert(zid@ =~= zone_key(st.context, ns@));
                assert(token_namespace(st, tokens@[k as int]) == Some(ns@));
                let is_override = t.key == content_word || t.key == text_word;
                upsert(
                    &mut accs,
                    zid,
                    is_override,
                    chars_of(t.key.as_str()),
                    chars_of(t.unescaped.as_str()),
                    Ghost(st.zones),
                );
                proof {
                    st = route_step(st, tokens@[k as int]);
                }
            }
            k += 1;
        }
        assert(tokens@.take(tokens.len() as int) =~= tokens@);
        let mut out: Vec<ZoneTokenUpdate> = Vec::new();
        let mut i: usize = 0;
        while i < accs.len()
            invariant
                i <= accs.len(),
                out@.len() == i,
                forall|m: int|
                    0 <= m < i ==> #[trigger] update_view(out@[m]) == (
                        accs@[m].zone_id@,
                        built_content(acc_view(accs@[m])),
                    ),
            decreases accs.len() - i,
        {
            let update = ZoneTokenUpdate {
                zone_id: string_of(&accs[i].zone_id),
                content: build_content(&accs[i]),
            };
            out.push(update);
            i += 1;
        }
        let ghost listed = out@.map_values(|u: ZoneTokenUpdate| update_view(u));
        assert forall|m: int| 0 <= m < listed.len() implies #[trigger] listed[m] == (
            accs@[m].zone_id@,
            built_content(acc_view(accs@[m])),
        ) by {
            assert(listed[m] == update_view(out@[m]));
        }
        assert forall|z: Seq<char>| #[trigger] st.zones.contains_key(z) implies exists|m: int|
            0 <= m < listed.len() && listed[m].0 == z by {
            let m = choose|m: int| 0 <= m < accs@.len() && accs@[m].zone_id@ == z;
            assert(listed[m].0 == z);
        }
        assert forall|a: int, b: int| 0 <= a < b < listed.len() implies lex_lt(
            #[trigger] listed[a].0,
            #[trigger] listed[b].0,
        ) by {
            assert(listed[a].0 == accs@[a].zone_id@);
            assert(listed[b].0 == accs@[b].zone_id@);
        }
        Ok(out)
    }
}

impl Default for ZoneTokenRouter {
    /// A router whose streams start in the empty context.
    fn default() -> (r: Self)
        ensures
            r.context() == Seq::<char>::empty(),
    {
        ZoneTokenRouter { default_context: String::new() }
    }
}

/// A bare `ctx` directive switches the context and nothing else: the namespace in
/// force and the zones gathered so far stay as they were. So a following token
/// without namespace prefix goes to the zone `new_context:namespace` of the namespace
/// in force before the switch (and fails when there was none).
pub proof fn lemma_ctx_switch_keeps_namespace(
    default: Seq<char>,
    toks: Seq<ZoneToken>,
    c: ZoneToken,
    t: ZoneToken,
)
    requires
        is_directive(c, "ctx"@),
        t.namespace is None,
        t.key@ != "ctx"@,
        t.key@ != "ns"@,
    ensures
        route_prefix(default, toks) matches Ok(st0) ==> (route_prefix(default, toks.push(c))
            matches Ok(st1) && st1.context == c.value@ && st1.namespace == st0.namespace
            && st1.zones == st0.zones),
        route_prefix(default, toks) matches Ok(st0) ==> (st0.namespace matches Some(n) ==> (
        route_prefix(default, toks.push(c).push(t)) matches Ok(st2) && st2.zones.contains_key(
            zone_key(c.value@, n),
        ) && st2.context == c.value@ && st2.namespace == st0.namespace)),
        route_prefix(default, toks) matches Ok(st0) ==> (st0.namespace is None ==> route_prefix(
            default,
            toks.push(c).push(t),
        ) is Err),
{
    assert(toks.push(c).drop_last() =~= toks);
    assert(toks.push(c).push(t).drop_last() =~= toks.push(c));
}

/// A bare `ns` directive switches the namespace and nothing else.
pub proof fn lemma_ns_switch_keeps_context(default: Seq<char>, toks: Seq<ZoneToken>, d: ZoneToken)
    requires
        is_directive(d, "ns"@),
    ensures
        route_prefix(default, toks) matches Ok(st0) ==> (route_prefix(default, toks.push(d))
            matches Ok(st1) && st1.context == st0.context && st1.namespace == Some(d.value@)
            && st1.zones == st0.zones),
{
    reveal_strlit("ns");
    reveal_strlit("ctx");
    assert("ns"@.len() == 2);
    assert("ctx"@.len() == 3);
    assert("ns"@ != "ctx"@);
    assert(toks.push(d).drop_last() =~= toks);
}

/// Pairs in order of their keys: no pair's key comes before an earlier pair's.
pub open spec fn keys_sorted(s: Seq<(Seq<char>, Seq<char>)>) -> bool {
    forall|i: int, j: int| 0 <= i < j < s.len() ==> !lex_lt(#[trigger] s[j].0, #[trigger] s[i].0)
}

/// The first position at or after `k` whose key comes after `key`, or the length.
spec fn first_above(s: Seq<(Seq<char>, Seq<char>)>, key: Seq<char>, k: int) -> int
    decreases s.len() - k,
{
    if k >= s.len() {
        s.len() as int
    } else if lex_lt(key, s[k].0) {
        k
    } else {
        first_above(s, key, k + 1)
    }
}

proof fn lemma_first_above(s: Seq<(Seq<char>, Seq<char>)>, key: Seq<char>, k: int)
    requires
        0 <= k <= s.len(),
    ensures
        k <= first_above(s, key, k) <= s.len(),
        forall|m: int| k <= m < first_above(s, key, k) ==> !lex_lt(key, #[trigger] s[m].0),
        first_above(s, key, k) < s.len() ==> lex_lt(key, s[first_above(s, key, k)].0),
    decreases s.len() - k,
{
    if k < s.len() && !lex_lt(key, s[k].0) {
        lemma_first_above(s, key, k + 1);
    }
}

/// Inserting a pair by key into pairs in key order keeps them in key order and adds
/// exactly that pair.
proof fn lemma_insert_by_key_sorted(s: Seq<(Seq<char>, Seq<char>)>, x: (Seq<char>, Seq<char>))
    requires
        keys_sorted(s),
    ensures
        keys_sorted(insert_by_key(s, x)),
        insert_by_key(s, x).to_multiset() == s.to_multiset().insert(x),
{
    broadcast use vstd::seq_lib::to_multiset_insert;

    lemma_first_above(s, x.0, 0);
    let j = first_above(s, x.0, 0);
    lemma_insert_by_key_at(s, x, j);
    let r = s.insert(j, x);
    assert forall|a: int, b: int| 0 <= a < b < r.len() implies !lex_lt(
        #[trigger] r[b].0,
        #[trigger] r[a].0,
    ) by {
        if a < j && b < j {
            assert(r[a] == s[a] && r[b] == s[b]);
        } else if a < j && b == j {
            assert(r[a] == s[a]);
        } else if a < j && b > j {
            assert(r[a] == s[a] && r[b] == s[b - 1]);
        } else if a == j {
            assert(r[b] == s[b - 1]);
            if lex_lt(s[b - 1].0, x.0) {
                if b - 1 > j {
                    lemma_lex_transitive(s[b - 1].0, x.0, s[j].0);
                } else {
                    lemma_lex_transitive(s[j].0, x.0, s[j].0);
                    lemma_lex_irreflexive(s[j].0);
                }
            }
        } else {
            assert(r[a] == s[a - 1] && r[b] == s[b - 1]);
        }
    }
}

/// Sorting by key puts the pairs in key order and keeps every pair, each as often as
/// it occurs.
pub proof fn lemma_sort_by_key_sorts(s: Seq<(Seq<char>, Seq<char>)>)
    ensures
        keys_sorted(sort_by_key(s)),
        sort_by_key(s).to_multiset() == s.to_multiset(),
    decreases s.len(),
{
    broadcast use vstd::seq_lib::to_multiset_build;

    if s.len() == 0 {
    } else {
        lemma_sort_by_key_sorts(s.drop_last());
        lemma_insert_by_key_sorted(sort_by_key(s.drop_last()), s.last());
        assert(s.drop_last().push(s.last()) =~= s);
    }
}

/// An override token decides its zone's content: after a `content` or `text` value,
/// pairs added later do not change what the zone shows.
pub proof fn lemma_override_wins(acc: ZoneAcc, key: Seq<char>, value: Seq<char>, later: Seq<char>, v2: Seq<char>)
    requires
        is_override_key(key),
        !is_override_key(later),
    ensures
        built_content(acc_push(acc, key, value)) == value,
        built_content(acc_push(acc_push(acc, key, value), later, v2)) == value,
{
}

} // verus!
