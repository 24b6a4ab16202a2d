//! The stored settings: loading, showing and changing them.
use vstd::prelude::*;
use crate::config::{config_verdict, dead_symbol_prefix, validate_config_value};
use crate::order::{
    are_ranked, ranked_by, ranking_keeps_everything, sorted, text_order_is_irreflexive,
    text_order_is_total, text_order_is_transitive, Ranked,
};
use crate::reply::{bad_request, refused, Reason, Refusal};
use crate::text::{
    after, has_prefix, is_before, joined, joined3, same, strip_prefix, text_before, trim_text,
    trimmed,
};

verus! {

broadcast use vstd::string::group_string_axioms;

/// One stored setting.
#[derive(Debug)]
pub struct ConfigItem {
    pub key: String,
    pub value: String,
}

impl View for ConfigItem {
    type V = (Seq<char>, Seq<char>);

    open spec fn view(&self) -> (Seq<char>, Seq<char>) {
        (self.key@, self.value@)
    }
}

/// The keys and values of some settings.
pub open spec fn item_views(items: Seq<ConfigItem>) -> Seq<(Seq<char>, Seq<char>)> {
    Seq::new(items.len(), |i: int| items[i]@)
}

impl Ranked for ConfigItem {
    open spec fn precedes(self, other: ConfigItem) -> bool {
        text_before(self.key@, other.key@)
    }

    proof fn precedes_is_irreflexive(a: ConfigItem) {
        text_order_is_irreflexive(a.key@);
    }

    proof fn precedes_is_transitive(a: ConfigItem, b: ConfigItem, c: ConfigItem) {
        text_order_is_transitive(a.key@, b.key@, c.key@);
    }

    proof fn ties_are_transitive(a: ConfigItem, b: ConfigItem, c: ConfigItem) {
        text_order_is_total(a.key@, b.key@);
        text_order_is_total(b.key@, c.key@);
        if text_before(a.key@, c.key@) {
            if a.key@ != b.key@ && b.key@ != c.key@ {
                text_order_is_transitive(c.key@, b.key@, a.key@);
                text_order_is_transitive(c.key@, a.key@, c.key@);
                text_order_is_irreflexive(c.key@);
            }
        }
    }

    fn goes_before(&self, other: &ConfigItem) -> (r: bool) {
        is_before(self.key.as_str(), other.key.as_str())
    }
}

/// The stored settings in the order of their keys.
pub fn load_config(rows: Vec<ConfigItem>) -> (r: Vec<ConfigItem>)
    ensures
        are_ranked(r@, rows@),
{
    sorted(rows)
}

/// Which settings have another key.
pub open spec fn other_than(key: Seq<char>) -> spec_fn((Seq<char>, Seq<char>)) -> bool {
    |item: (Seq<char>, Seq<char>)| item.0 != key
}

/// The settings once a key has been given a value: the other keys keep theirs.
pub open spec fn upserted(
    items: Seq<(Seq<char>, Seq<char>)>,
    key: Seq<char>,
    value: Seq<char>,
) -> Seq<(Seq<char>, Seq<char>)> {
    items.filter(other_than(key)).push((key, value))
}

/// Gives a key a value, in place of the one it had.
pub fn upsert_config(rows: Vec<ConfigItem>, key: &str, value: &str) -> (r: Vec<ConfigItem>)
    ensures
        item_views(r@) == upserted(item_views(rows@), key@, value@),
{
    let ghost all = item_views(rows@);
    let ghost keep = other_than(key@);
    let mut out: Vec<ConfigItem> = Vec::new();
    assert(item_views(out@) =~= all.take(0).filter(keep)) by {
        reveal(Seq::filter);
    }
    for item in it: rows
        invariant
            it.seq() == rows@,
            all == item_views(rows@),
            keep == other_than(key@),
            item_views(out@) == all.take(it.index() as int).filter(keep),
    {
        let ghost n = it.index() as int;
        let ghost before = item_views(out@);
        let ghost this = item@;
        proof {
            assert(all.take(n + 1) =~= all.take(n).push(this));
            lemma_filter_push(all.take(n), this, keep);
        }
        if !same(item.key.as_str(), key) {
            out.push(item);
            assert(item_views(out@) =~= before.push(this));
        }
    }
    assert(all.take(all.len() as int) =~= all);
    let ghost before = item_views(out@);
    out.push(ConfigItem { key: key.to_owned(), value: value.to_owned() });
    assert(item_views(out@) =~= before.push((key@, value@)));
    out
}

/// No key twice.
pub open spec fn keys_distinct(items: Seq<(Seq<char>, Seq<char>)>) -> bool {
    forall|i: int, j: int|
        0 <= i < items.len() && 0 <= j < items.len() && (#[trigger] items[i]).0 == (
        #[trigger] items[j]).0 ==> i == j
}

/// In the order of the keys, no key twice.
pub open spec fn keys_ascend(items: Seq<(Seq<char>, Seq<char>)>) -> bool {
    forall|i: int, j: int|
        0 <= i < j < items.len() ==> text_before((#[trigger] items[i]).0, (#[trigger] items[j]).0)
}

/// What a filter keeps are the elements that pass it.
pub proof fn lemma_filter_members<T>(s: Seq<T>, keep: spec_fn(T) -> bool)
    ensures
        forall|x: T| #[trigger] s.filter(keep).contains(x) <==> s.contains(x) && keep(x),
    decreases s.len(),
{
    reveal(Seq::filter);
    if s.len() > 0 {
        let less = s.drop_last();
        lemma_filter_members(less, keep);
        assert forall|x: T| #[trigger] s.filter(keep).contains(x) <==> s.contains(x) && keep(x) by {
            assert(s =~= less.push(s.last()));
            if s.contains(x) {
                let i = choose|i: int| 0 <= i < s.len() && s[i] == x;
                if i < less.len() {
                    assert(less[i] == x);
                }
            }
            if less.contains(x) {
                let i = choose|i: int| 0 <= i < less.len() && less[i] == x;
                assert(s[i] == x);
            }
            if less.filter(keep).contains(x) {
                let i = choose|i: int|
                    0 <= i < less.filter(keep).len() && less.filter(keep)[i] == x;
                assert(s.filter(keep)[i] == x);
            }
            if x == s.last() && keep(x) {
                assert(s.filter(keep)[less.filter(keep).len() as int] == x);
                assert(s[s.len() - 1] == x);
            }
            if s.filter(keep).contains(x) && !less.filter(keep).contains(x) {
                let i = choose|i: int| 0 <= i < s.filter(keep).len() && s.filter(keep)[i] == x;
                if i < less.filter(keep).len() {
                    assert(less.filter(keep)[i] == x);
                }
            }
        }
    } else {
        assert(s.filter(keep) =~= seq![]);
    }
}

proof fn lemma_filter_distinct(
    items: Seq<(Seq<char>, Seq<char>)>,
    keep: spec_fn((Seq<char>, Seq<char>)) -> bool,
)
    requires
        keys_distinct(items),
    ensures
        keys_distinct(items.filter(keep)),
    decreases items.len(),
{
    reveal(Seq::filter);
    if items.len() > 0 {
        let less = items.drop_last();
        assert(keys_distinct(less)) by {
            assert forall|i: int, j: int|
                0 <= i < less.len() && 0 <= j < less.len() && (#[trigger] less[i]).0 == (
                #[trigger] less[j]).0 implies i == j by {
                assert(items[i] == less[i] && items[j] == less[j]);
            }
        }
        lemma_filter_distinct(less, keep);
        lemma_filter_members(less, keep);
        let f = less.filter(keep);
        if keep(items.last()) {
            assert forall|i: int| 0 <= i < f.len() implies (#[trigger] f[i]).0 != items.last().0 by {
                assert(f.contains(f[i]));
                let k = choose|k: int| 0 <= k < less.len() && less[k] == f[i];
                assert(items[k].0 == f[i].0);
                assert(items[items.len() - 1] == items.last());
            }
        }
    }
}

/// Sorting settings with different keys keeps them, in the order of the keys.
proof fn lemma_loaded(r: Seq<ConfigItem>, rows: Seq<ConfigItem>)
    requires
        are_ranked(r, rows),
        keys_distinct(item_views(rows)),
    ensures
        keys_ascend(item_views(r)),
        forall|x: (Seq<char>, Seq<char>)| #[trigger]
            item_views(r).contains(x) <==> item_views(rows).contains(x),
{
    let order = choose|order: Seq<int>| #[trigger] ranked_by(r, rows, order);
    assert forall|i: int, j: int| 0 <= i < j < item_views(r).len() implies text_before(
        (#[trigger] item_views(r)[i]).0,
        (#[trigger] item_views(r)[j]).0,
    ) by {
        assert(order[i] != order[j]);
        assert(r[i] == rows[order[i]] && r[j] == rows[order[j]]);
        assert(item_views(rows)[order[i]] == r[i]@);
        assert(item_views(rows)[order[j]] == r[j]@);
        text_order_is_total(r[i].key@, r[j].key@);
    }
    assert forall|x: (Seq<char>, Seq<char>)| #[trigger]
        item_views(r).contains(x) <==> item_views(rows).contains(x) by {
        if item_views(r).contains(x) {
            let i = choose|i: int| 0 <= i < item_views(r).len() && item_views(r)[i] == x;
            assert(item_views(rows)[order[i]] == x);
        }
        if item_views(rows).contains(x) {
            let k = choose|k: int| 0 <= k < item_views(rows).len() && item_views(rows)[k] == x;
            ranking_keeps_everything(r, rows, order, k);
            let i = choose|i: int| 0 <= i < r.len() && r[i] == rows[k];
            assert(item_views(r)[i] == x);
        }
    }
}

/// A setting that was written reads back: the settings come in the order of
/// their keys, no key twice; the key has the value that was written and no
/// other, and every other key has the value that it had.
pub proof fn a_setting_reads_back(
    rows: Seq<ConfigItem>,
    before: Seq<ConfigItem>,
    written: Seq<ConfigItem>,
    after: Seq<ConfigItem>,
    key: Seq<char>,
    value: Seq<char>,
)
    requires
        keys_distinct(item_views(rows)),
        are_ranked(before, rows),
        item_views(written) == upserted(item_views(rows), key, value),
        are_ranked(after, written),
    ensures
        keys_distinct(item_views(written)),
        keys_ascend(item_views(after)),
        forall|x: (Seq<char>, Seq<char>)| #[trigger]
            item_views(after).contains(x) <==> x == (key, value) || (x.0 != key && item_views(
                before,
            ).contains(x)),
{
    let items = item_views(rows);
    let keep = other_than(key);
    let kept = items.filter(keep);
    lemma_filter_distinct(items, keep);
    lemma_filter_members(items, keep);
    let now = item_views(written);
    assert(now == kept.push((key, value)));
    assert forall|i: int, j: int|
        0 <= i < now.len() && 0 <= j < now.len() && (#[trigger] now[i]).0 == (#[trigger] now[j]).0
        implies i == j by {
        if i < kept.len() {
            assert(kept.contains(kept[i]));
        }
        if j < kept.len() {
            assert(kept.contains(kept[j]));
        }
        if i < kept.len() && j < kept.len() {
            assert(kept[i].0 == kept[j].0);
        }
    }
    lemma_loaded(before, rows);
    lemma_loaded(after, written);
    assert forall|x: (Seq<char>, Seq<char>)| #[trigger]
        item_views(after).contains(x) <==> x == (key, value) || (x.0 != key && item_views(
            before,
        ).contains(x)) by {
        assert(item_views(after).contains(x) <==> now.contains(x));
        assert(item_views(before).contains(x) <==> items.contains(x));
        assert(kept.contains(x) <==> items.contains(x) && keep(x));
        if kept.contains(x) {
            let i = choose|i: int| 0 <= i < kept.len() && kept[i] == x;
            assert(now[i] == x);
        }
        assert(now[kept.len() as int] == (key, value));
        if now.contains(x) {
            let i = choose|i: int| 0 <= i < now.len() && now[i] == x;
            if i < kept.len() {
                assert(kept[i] == x);
            }
        }
    }
}

/// The settings a client may see: the key to the analysis service never leaves
/// the server, only whether one is set.
pub open spec fn visible_items(items: Seq<(Seq<char>, Seq<char>)>) -> Seq<(Seq<char>, Seq<char>)> {
    items.filter(|item: (Seq<char>, Seq<char>)| item.0 != "ai_api_key"@).push(
        (
            "ai_api_key_configured"@,
            if analysis_key_set(items) {
                "true"@
            } else {
                "false"@
            },
        ),
    )
}

/// Whether a key to the analysis service is stored.
pub open spec fn analysis_key_set(items: Seq<(Seq<char>, Seq<char>)>) -> bool {
    exists|i: int|
        0 <= i < items.len() && (#[trigger] items[i]).0 == "ai_api_key"@ && items[i].1.len() > 0
}

/// The settings as a client sees them.
pub fn visible_config(config: Vec<ConfigItem>) -> (r: Vec<ConfigItem>)
    ensures
        item_views(r@) == visible_items(item_views(config@)),
{
    let ghost all = item_views(config@);
    let ghost keep = |item: (Seq<char>, Seq<char>)| item.0 != "ai_api_key"@;
    let mut out: Vec<ConfigItem> = Vec::new();
    let mut has_key = false;
    for item in it: config
        invariant
            it.seq() == config@,
            all == item_views(config@),
            keep == (|item: (Seq<char>, Seq<char>)| item.0 != "ai_api_key"@),
            item_views(out@) == all.take(it.index() as int).filter(keep),
            has_key == analysis_key_set(all.take(it.index() as int)),
    {
        let ghost n = it.index() as int;
        let ghost before = item_views(out@);
        let ghost this = item@;
        let secret = same(item.key.as_str(), "ai_api_key");
        proof {
            assert(all[n] == this);
            assert(all.take(n + 1) =~= all.take(n).push(this));
            crate::settings::lemma_filter_push(all.take(n), this, keep);
            assert forall|i: int| 0 <= i < n implies all.take(n + 1)[i] == all.take(n)[i] by {}
            assert(all.take(n + 1)[n] == this);
            if analysis_key_set(all.take(n)) {
                let i = choose|i: int|
                    0 <= i < n && (#[trigger] all.take(n)[i]).0 == "ai_api_key"@ && all.take(
                        n,
                    )[i].1.len() > 0;
                assert(all.take(n + 1)[i].0 == "ai_api_key"@);
            }
            if analysis_key_set(all.take(n + 1)) && !analysis_key_set(all.take(n)) {
                let i = choose|i: int|
                    0 <= i < n + 1 && (#[trigger] all.take(n + 1)[i]).0 == "ai_api_key"@
                        && all.take(n + 1)[i].1.len() > 0;
                if i < n {
                    assert(all.take(n)[i].0 == "ai_api_key"@);
                }
            }
        }
        if secret {
            if !item.value.as_str().is_empty() {
                has_key = true;
            }
        } else {
            out.push(item);
            assert(item_views(out@) =~= before.push(this));
        }
    }
    let ghost before = item_views(out@);
    assert(all.take(all.len() as int) =~= all);
    let shown = if has_key {
        "true"
    } else {
        "false"
    };
    out.push(ConfigItem { key: "ai_api_key_configured".to_owned(), value: shown.to_owned() });
    assert(item_views(out@) =~= before.push(
        (
            "ai_api_key_configured"@,
            if has_key {
                "true"@
            } else {
                "false"@
            },
        ),
    ));
    out
}

/// Filtering what one more element was pushed to.
pub proof fn lemma_filter_push<T>(s: Seq<T>, x: T, keep: spec_fn(T) -> bool)
    ensures
        s.push(x).filter(keep) == (if keep(x) {
            s.filter(keep).push(x)
        } else {
            s.filter(keep)
        }),
{
    reveal(Seq::filter);
    assert(s.push(x).drop_last() =~= s);
}

/// What a client sees never holds the key to the analysis service.
pub proof fn the_analysis_key_is_never_shown(items: Seq<(Seq<char>, Seq<char>)>, i: int)
    requires
        0 <= i < visible_items(items).len(),
    ensures
        visible_items(items)[i].0 != "ai_api_key"@,
{
    let keep = |item: (Seq<char>, Seq<char>)| item.0 != "ai_api_key"@;
    broadcast use vstd::seq_lib::group_filter_ensures;

    reveal_strlit("ai_api_key");
    reveal_strlit("ai_api_key_configured");
    if i < items.filter(keep).len() {
        assert(keep(items.filter(keep)[i]));
    } else {
        assert("ai_api_key"@.len() != "ai_api_key_configured"@.len());
    }
}

/// What changing a setting does.
#[derive(Debug)]
pub struct ConfigChange {
    /// The setting as it is stored.
    pub item: ConfigItem,
    /// What the event log says of it.
    pub note: String,
    /// The symbol whose cached quote is dropped, where one is marked as no
    /// longer trading: nothing would ever overwrite that quote.
    pub drop_quote_of: Option<String>,
}

/// What changing a setting does, or why it is refused.
pub open spec fn config_change(key: Seq<char>, value: Seq<char>) -> Result<
    ((Seq<char>, Seq<char>), Seq<char>, Option<Seq<char>>),
    (Reason, Seq<char>),
> {
    let k = trim_text(key);
    let v = trim_text(value);
    if k.len() == 0 {
        Err((Reason::BadRequest, "Config key is required"@))
    } else {
        match config_verdict(k, v) {
            Err(e) => Err((Reason::BadRequest, "Invalid "@ + k + ": "@ + e)),
            Ok(_) => Ok(
                (
                    (k, v),
                    "Updated config "@ + k,
                    if has_prefix(k, dead_symbol_prefix()) && v.len() > 0 {
                        Some(after(k, dead_symbol_prefix().len() as int))
                    } else {
                        None
                    },
                ),
            ),
        }
    }
}

/// The change that a client asks for, or why it is refused. A refused change
/// stores nothing.
pub fn update_config(key: &str, value: &str) -> (r: Result<ConfigChange, Refusal>)
    ensures
        match r {
            Ok(c) => config_change(key@, value@) == Ok::<
                ((Seq<char>, Seq<char>), Seq<char>, Option<Seq<char>>),
                (Reason, Seq<char>),
            >((c.item@, c.note@, crate::text::option_view(c.drop_quote_of))),
            Err(e) => config_change(key@, value@) == Err::<
                ((Seq<char>, Seq<char>), Seq<char>, Option<Seq<char>>),
                (Reason, Seq<char>),
            >(e@),
        },
{
    let k = trimmed(key);
    let v = trimmed(value);
    if k.is_empty() {
        return Err(bad_request("Config key is required"));
    }
    match validate_config_value(k, v) {
        Err(e) => {
            let head = joined3("Invalid ", k, ": ");
            Err(bad_request(joined(head.as_str(), e.as_str()).as_str()))
        },
        Ok(_) => {
            let dead = match strip_prefix(k, "dead_symbol_") {
                Some(symbol) => if v.is_empty() {
                    None
                } else {
                    Some(symbol.to_owned())
                },
                None => None,
            };
            Ok(
                ConfigChange {
                    item: ConfigItem { key: k.to_owned(), value: v.to_owned() },
                    note: joined("Updated config ", k),
                    drop_quote_of: dead,
                },
            )
        },
    }
}

/// A setting is stored trimmed; a symbol that is marked as no longer trading loses
/// its quote, one whose mark is cleared does not. A setting needs a key, and one
/// that is refused is not stored.
pub proof fn what_a_change_of_a_setting_does(key: Seq<char>, value: Seq<char>)
    ensures
        ({
            let k = crate::text::trim_text(key);
            let v = crate::text::trim_text(value);
            &&& k.len() == 0 ==> config_change(key, value) is Err
            &&& k.len() > 0 && config_verdict(k, v) is Err ==> config_change(key, value) is Err
            &&& k.len() > 0 && config_verdict(k, v) is Ok ==> (config_change(key, value) matches Ok(
                c,
            ) && c.0 == (k, v) && c.1 == "Updated config "@ + k && (v.len() == 0 ==> c.2 is None)
                && (v.len() > 0 && crate::text::has_prefix(k, "dead_symbol_"@) ==> c.2 == Some(
                crate::text::after(k, "dead_symbol_"@.len() as int),
            )) && (!crate::text::has_prefix(k, "dead_symbol_"@) ==> c.2 is None))
        }),
{
}

} // verus!
