//! The lists of the dashboard: which symbols qualify, how they are ranked and
//! which of them are shown.
use vstd::prelude::*;
use crate::config::list_operators_text;
use crate::exact::{exact, is_exact, lemma_exact, lemma_sign, unrounded, Reading};
use crate::fields::{texts, Field};
use crate::indicators::{indicator_of, indicator_value, PriceHistoryPoint};
use crate::order::{distinct_sorted, sorted, strictly_ascending, Ranked};
use crate::number::{
    difference, evaluate, is_calculator, num, percentage, whole, worth, Formula, Number,
};
use crate::stops::{effective_stop_loss, field_number, fields_view, stop_loss_of};
use crate::text::{
    ascii_lower_text, ends_with, has_suffix, lemma_split_appended, option_slice_view, option_view,
    same, split, split_once, split_once_text, split_text, string_views, to_ascii_lower, trim_text,
    trimmed, views,
};
use crate::textmap::TextMap;

verus! {

broadcast use vstd::string::group_string_axioms;

// ---------------------------------------------------------------------------
// The directions asked for
// ---------------------------------------------------------------------------

/// The list and the direction that a pair `list:direction` names.
pub open spec fn sort_pair(pair: Seq<char>) -> Option<(Seq<char>, Seq<char>)> {
    match split_once_text(pair, ':') {
        Some(p) => {
            let dir = ascii_lower_text(trim_text(p.1));
            if dir == "asc"@ || dir == "desc"@ {
                Some((trim_text(p.0), dir))
            } else {
                None
            }
        },
        None => None,
    }
}

/// The directions that some pairs name, by list. A later pair counts; one that
/// cannot be read is passed over.
pub open spec fn sort_overrides(pairs: Seq<Seq<char>>) -> Map<Seq<char>, Seq<char>>
    decreases pairs.len(),
{
    if pairs.len() == 0 {
        Map::empty()
    } else {
        let earlier = sort_overrides(pairs.drop_last());
        match sort_pair(pairs.last()) {
            Some(p) => earlier.insert(p.0, p.1),
            None => earlier,
        }
    }
}

/// The directions that a request asks for.
pub open spec fn asked_directions(raw: Option<Seq<char>>) -> Map<Seq<char>, Seq<char>> {
    match raw {
        Some(s) => sort_overrides(split_text(s, ',')),
        None => Map::empty(),
    }
}

/// The directions that a request asks for, by list: comma-separated pairs
/// `list:asc` or `list:desc`. What cannot be read falls back to the order that
/// the list is set to.
pub fn parse_list_sort(raw: Option<&str>) -> (r: TextMap<String>)
    ensures
        texts(r@) == asked_directions(option_slice_view(raw)),
{
    let mut out: TextMap<String> = TextMap::new();
    assert(texts(out@) =~= Map::<Seq<char>, Seq<char>>::empty());
    match raw {
        None => {},
        Some(s) => {
            let pairs = split(s, ',');
            let ghost all = views(pairs@);
            let mut i: usize = 0;
            while i < pairs.len()
                invariant
                    i <= pairs.len(),
                    all == views(pairs@),
                    texts(out@) == sort_overrides(all.take(i as int)),
                decreases pairs.len() - i,
            {
                let ghost before = texts(out@);
                proof {
                    assert(all.take(i + 1).drop_last() =~= all.take(i as int));
                    assert(all.take(i + 1).last() == pairs@[i as int]@);
                }
                match split_once(pairs[i], ':') {
                    Some((key, dir)) => {
                        let d = to_ascii_lower(trimmed(dir));
                        if same(d.as_str(), "asc") || same(d.as_str(), "desc") {
                            let k = trimmed(key);
                            out.insert(k.to_owned(), d);
                            assert(texts(out@) =~= before.insert(k@, d@));
                        }
                    },
                    None => {},
                }
                i += 1;
            }
            assert(all.take(pairs.len() as int) =~= all);
        },
    }
    out
}

/// A pair that cannot be read is passed over and spoils nothing else: appending
/// one to a request changes nothing. Such a pair has no colon, or names no
/// direction behind its first.
pub proof fn a_bad_pair_is_passed_over(raw: Seq<char>, pair: Seq<char>)
    requires
        !pair.contains(','),
        match split_once_text(pair, ':') {
            Some(p) => ascii_lower_text(trim_text(p.1)) != "asc"@ && ascii_lower_text(
                trim_text(p.1),
            ) != "desc"@,
            None => true,
        },
    ensures
        asked_directions(Some(raw + seq![','] + pair)) == asked_directions(Some(raw)),
{
    lemma_split_appended(raw, ',', pair);
    assert(split_text(raw, ',').push(pair).drop_last() =~= split_text(raw, ','));
}

/// A request asks for no direction but the two.
pub proof fn only_directions_are_asked_for(raw: Option<Seq<char>>, key: Seq<char>)
    requires
        asked_directions(raw).contains_key(key),
    ensures
        asked_directions(raw)[key] == "asc"@ || asked_directions(raw)[key] == "desc"@,
{
    if let Some(s) = raw {
        lemma_overrides_are_directions(split_text(s, ','), key);
    }
}

proof fn lemma_overrides_are_directions(pairs: Seq<Seq<char>>, key: Seq<char>)
    requires
        sort_overrides(pairs).contains_key(key),
    ensures
        sort_overrides(pairs)[key] == "asc"@ || sort_overrides(pairs)[key] == "desc"@,
    decreases pairs.len(),
{
    match sort_pair(pairs.last()) {
        Some(p) => if p.0 != key {
            lemma_overrides_are_directions(pairs.drop_last(), key);
        },
        None => {
            lemma_overrides_are_directions(pairs.drop_last(), key);
        },
    }
}

/// Of the pairs that name a list the last one counts.
pub proof fn the_last_pair_of_a_list_counts(raw: Seq<char>, i: int)
    requires
        0 <= i < split_text(raw, ',').len(),
        sort_pair(split_text(raw, ',')[i]) is Some,
        forall|j: int|
            i < j < split_text(raw, ',').len() ==> (match sort_pair(
                #[trigger] split_text(raw, ',')[j],
            ) {
                Some(p) => p.0 != (sort_pair(split_text(raw, ',')[i])->0).0,
                None => true,
            }),
    ensures
        ({
            let named = sort_pair(split_text(raw, ',')[i])->0;
            asked_directions(Some(raw)).contains_key(named.0) && asked_directions(
                Some(raw),
            )[named.0] == named.1
        }),
{
    lemma_last_pair(split_text(raw, ','), i);
}

proof fn lemma_last_pair(pairs: Seq<Seq<char>>, i: int)
    requires
        0 <= i < pairs.len(),
        sort_pair(pairs[i]) is Some,
        forall|j: int|
            i < j < pairs.len() ==> (match sort_pair(#[trigger] pairs[j]) {
                Some(p) => p.0 != (sort_pair(pairs[i])->0).0,
                None => true,
            }),
    ensures
        sort_overrides(pairs).contains_key((sort_pair(pairs[i])->0).0),
        sort_overrides(pairs)[(sort_pair(pairs[i])->0).0] == (sort_pair(pairs[i])->0).1,
    decreases pairs.len(),
{
    if i < pairs.len() - 1 {
        let less = pairs.drop_last();
        assert forall|j: int| i < j < less.len() implies (match sort_pair(#[trigger] less[j]) {
            Some(p) => p.0 != (sort_pair(less[i])->0).0,
            None => true,
        }) by {
            assert(pairs[j] == less[j]);
        }
        lemma_last_pair(less, i);
        assert(pairs[pairs.len() - 1] == pairs.last());
    }
}

// ---------------------------------------------------------------------------
// Ranking
// ---------------------------------------------------------------------------

/// Whether row `i` is shown before row `j`, `ranks` being what the rows are
/// ranked by. A missing figure comes last in either direction; what ties keeps
/// its order.
pub open spec fn shown_before(ranks: Seq<Option<int>>, descending: bool, i: int, j: int) -> bool {
    match (ranks[i], ranks[j]) {
        (Some(a), Some(b)) => if a == b {
            i < j
        } else if descending {
            a > b
        } else {
            a < b
        },
        (Some(_), None) => true,
        (None, Some(_)) => false,
        (None, None) => i < j,
    }
}

/// Whether `order` names the rows to show: the first `limit` of all rows, as
/// they follow one another.
pub open spec fn is_top(
    order: Seq<int>,
    ranks: Seq<Option<int>>,
    descending: bool,
    limit: int,
) -> bool {
    &&& order.len() == (if ranks.len() <= limit {
        ranks.len() as int
    } else {
        limit
    })
    &&& forall|k: int| 0 <= k < order.len() ==> 0 <= #[trigger] order[k] < ranks.len()
    &&& forall|k: int, l: int|
        0 <= k < l < order.len() ==> shown_before(
            ranks,
            descending,
            #[trigger] order[k],
            #[trigger] order[l],
        )
    &&& forall|k: int, i: int|
        0 <= k < order.len() && 0 <= i < ranks.len() && !order.contains(i)
            ==> #[trigger] shown_before(ranks, descending, order[k], i)
}

/// What a row is sorted by.
pub struct RankKey {
    pub missing: bool,
    pub value: i128,
    pub index: usize,
}

impl Ranked for RankKey {
    open spec fn precedes(self, other: RankKey) -> bool {
        if self.missing != other.missing {
            other.missing
        } else if !self.missing && self.value != other.value {
            self.value < other.value
        } else {
            self.index < other.index
        }
    }

    proof fn precedes_is_irreflexive(a: RankKey) {
    }

    proof fn precedes_is_transitive(a: RankKey, b: RankKey, c: RankKey) {
    }

    proof fn ties_are_transitive(a: RankKey, b: RankKey, c: RankKey) {
    }

    fn goes_before(&self, other: &RankKey) -> (r: bool) {
        if self.missing != other.missing {
            other.missing
        } else if !self.missing && self.value != other.value {
            self.value < other.value
        } else {
            self.index < other.index
        }
    }
}

/// The views of some ranks.
pub open spec fn rank_views(ranks: Seq<Option<i64>>) -> Seq<Option<int>> {
    Seq::new(
        ranks.len(),
        |i: int|
            match ranks[i] {
                Some(v) => Some(v as int),
                None => None,
            },
    )
}

/// The views of some positions.
pub open spec fn position_views(order: Seq<usize>) -> Seq<int> {
    Seq::new(order.len(), |i: int| order[i] as int)
}

spec fn key_of(ranks: Seq<Option<i64>>, descending: bool, i: int) -> RankKey {
    RankKey {
        missing: ranks[i] is None,
        value: match ranks[i] {
            Some(v) => if descending {
                (-(v as int)) as i128
            } else {
                v as i128
            },
            None => 0,
        },
        index: i as usize,
    }
}

proof fn lemma_key_order(ranks: Seq<Option<i64>>, descending: bool, i: int, j: int)
    requires
        0 <= i < ranks.len(),
        0 <= j < ranks.len(),
        ranks.len() <= usize::MAX,
        i != j,
    ensures
        key_of(ranks, descending, i).precedes(key_of(ranks, descending, j)) == shown_before(
            rank_views(ranks),
            descending,
            i,
            j,
        ),
        key_of(ranks, descending, i).precedes(key_of(ranks, descending, j)) || key_of(
            ranks,
            descending,
            j,
        ).precedes(key_of(ranks, descending, i)),
{
}

/// The rows to show and their order, by position.
pub fn ranked_positions(ranks: &Vec<Option<i64>>, descending: bool, limit: usize) -> (r: Vec<usize>)
    ensures
        is_top(position_views(r@), rank_views(ranks@), descending, limit as int),
        position_views(r@).no_duplicates(),
{
    let mut keys: Vec<RankKey> = Vec::new();
    let mut i: usize = 0;
    while i < ranks.len()
        invariant
            i <= ranks.len(),
            keys@.len() == i,
            forall|j: int| 0 <= j < i ==> #[trigger] keys@[j] == key_of(ranks@, descending, j),
        decreases ranks.len() - i,
    {
        let value: i128 = match ranks[i] {
            Some(v) => if descending {
                -(v as i128)
            } else {
                v as i128
            },
            None => 0,
        };
        keys.push(RankKey { missing: ranks[i].is_none(), value, index: i });
        i += 1;
    }
    let ghost unsorted = keys@;
    let all = sorted(keys);
    proof {
        unsorted.to_multiset_ensures();
        all@.to_multiset_ensures();
        assert(all@.len() == unsorted.len());
        assert forall|k: int| 0 <= k < all@.len() implies 0 <= (#[trigger] all@[k]).index
            < ranks@.len() && all@[k] == key_of(ranks@, descending, all@[k].index as int) by {
            assert(all@.to_multiset().contains(all@[k]));
            assert(unsorted.to_multiset().contains(all@[k]));
            assert(unsorted.contains(all@[k]));
            let m = choose|m: int| 0 <= m < unsorted.len() && unsorted[m] == all@[k];
            assert(unsorted[m] == key_of(ranks@, descending, m));
        }
        lemma_sorted_distinct(unsorted, all@, ranks@, descending);
    }
    let mut out: Vec<usize> = Vec::new();
    let mut k: usize = 0;
    while k < all.len() && k < limit
        invariant
            k <= all.len(),
            k <= limit,
            out@.len() == k,
            forall|j: int| 0 <= j < k ==> #[trigger] out@[j] == all@[j].index,
        decreases all.len() - k,
    {
        out.push(all[k].index);
        k += 1;
    }
    proof {
        let order = position_views(out@);
        let views = rank_views(ranks@);
        assert forall|a: int, b: int| 0 <= a < b < order.len() implies shown_before(
            views,
            descending,
            #[trigger] order[a],
            #[trigger] order[b],
        ) by {
            assert(!all@[b].precedes(all@[a]));
            assert(all@[a].index != all@[b].index);
            lemma_key_order(ranks@, descending, order[a], order[b]);
        }
        assert forall|a: int, i: int|
            0 <= a < order.len() && 0 <= i < views.len() && !order.contains(
                i,
            ) implies #[trigger] shown_before(views, descending, order[a], i) by {
            let key = key_of(ranks@, descending, i);
            assert(unsorted[i] == key);
            assert(unsorted.to_multiset().contains(key));
            assert(all@.to_multiset().contains(key));
            assert(all@.contains(key));
            let b = choose|b: int| 0 <= b < all@.len() && all@[b] == key;
            if b < order.len() {
                assert(order[b] == i);
            }
            assert(a < b);
            assert(!all@[b].precedes(all@[a]));
            assert(all@[a].index != i);
            lemma_key_order(ranks@, descending, order[a], i);
        }
        assert forall|a: int, b: int|
            0 <= a < order.len() && 0 <= b < order.len() && a != b implies order[a] != order[b] by {
            assert(all@[a].index != all@[b].index);
        }
    }
    out
}

proof fn lemma_sorted_distinct(
    unsorted: Seq<RankKey>,
    all: Seq<RankKey>,
    ranks: Seq<Option<i64>>,
    descending: bool,
)
    requires
        all.to_multiset() == unsorted.to_multiset(),
        unsorted.len() == ranks.len(),
        forall|j: int| 0 <= j < unsorted.len() ==> #[trigger] unsorted[j].index == j,
        forall|j: int| 0 <= j < all.len() ==> (#[trigger] all[j]).index < unsorted.len()
            && all[j] == unsorted[all[j].index as int],
    ensures
        forall|a: int, b: int|
            0 <= a < all.len() && 0 <= b < all.len() && a != b ==> (#[trigger] all[a]).index != (
            #[trigger] all[b]).index,
{
    unsorted.to_multiset_ensures();
    all.to_multiset_ensures();
    assert(unsorted.no_duplicates()) by {
        assert forall|i: int, j: int|
            0 <= i < unsorted.len() && 0 <= j < unsorted.len() && i != j implies unsorted[i]
            != unsorted[j] by {
            assert(unsorted[i].index == i);
            assert(unsorted[j].index == j);
        }
    }
    assert forall|a: int, b: int|
        0 <= a < all.len() && 0 <= b < all.len() && a != b implies (#[trigger] all[a]).index != (
    #[trigger] all[b]).index by {
        if all[a].index == all[b].index {
            assert(all[a] == all[b]);
            unsorted.lemma_multiset_has_no_duplicates();
            lemma_two_places(all, a, b);
            assert(all.to_multiset().count(all[a]) >= 2);
            assert(unsorted.to_multiset().contains(all[a]));
            assert(unsorted.to_multiset().count(all[a]) == 1);
        }
    }
}

/// What stands at two places occurs at least twice.
proof fn lemma_two_places<T>(s: Seq<T>, a: int, b: int)
    requires
        0 <= a < s.len(),
        0 <= b < s.len(),
        a != b,
        s[a] == s[b],
    ensures
        s.to_multiset().count(s[a]) >= 2,
{
    s.to_multiset_ensures();
    let t = s.remove(a);
    let c = if b < a {
        b
    } else {
        b - 1
    };
    assert(t[c] == s[b]);
    t.to_multiset_ensures();
    assert(t.contains(s[a]));
    assert(t.to_multiset().contains(s[a]));
    assert(t.to_multiset() =~= s.to_multiset().remove(s[a]));
}


// ---------------------------------------------------------------------------
// What a list asks
// ---------------------------------------------------------------------------

/// A dashboard list as it is set up.
#[derive(Debug)]
pub struct ListDef {
    pub key: String,
    pub label: String,
    /// Where its symbols come from: the holdings, the watchlist or both.
    pub source: String,
    /// What they are held against, with the table it lives in.
    pub field_key: String,
    pub operator: String,
    /// What is held against it: the price, or the day's volume.
    pub compare: Option<String>,
    pub limit: Option<usize>,
    pub sort: Option<String>,
}

/// On which side of its field a symbol has to be.
#[derive(Clone, Copy, PartialEq, Eq, Structural, Debug)]
pub enum Side {
    Over,
    Under,
    Neither,
}

/// The side that an operator selects. An unknown one selects nothing.
pub open spec fn side_of(operator: Seq<char>) -> Side {
    if operator == "above"@ || operator == "pct_below"@ || operator == "days_above"@ || operator
        == "volume_cross_pct"@ {
        Side::Over
    } else if operator == "below"@ || operator == "pct_above"@ || operator == "days_below"@ {
        Side::Under
    } else {
        Side::Neither
    }
}

/// Whether the distance to the field is on that side.
pub open spec fn on_side(side: Side, diff: Number) -> bool {
    match side {
        Side::Over => diff.positive(),
        Side::Under => diff.negative(),
        Side::Neither => false,
    }
}

/// Which way the price has to have crossed its field, where a list is about the
/// crossing.
pub open spec fn crossing_side(operator: Seq<char>) -> Option<Side> {
    if operator == "days_above"@ || operator == "volume_cross_pct"@ {
        Some(Side::Over)
    } else if operator == "days_below"@ {
        Some(Side::Under)
    } else {
        None
    }
}

/// What the rows of a list are ranked by.
#[derive(Clone, Copy, PartialEq, Eq, Structural, Debug)]
pub enum Metric {
    /// The days since the crossing.
    Days,
    /// The volume behind the crossing.
    VolumeCross,
    /// The distance in per cent, without its sign.
    Distance,
    /// The distance in per cent.
    Difference,
}

/// What the rows of a list are ranked by.
pub open spec fn metric_of(operator: Seq<char>) -> Metric {
    if operator == "days_above"@ || operator == "days_below"@ {
        Metric::Days
    } else if operator == "volume_cross_pct"@ {
        Metric::VolumeCross
    } else if operator == "pct_above"@ || operator == "pct_below"@ {
        Metric::Distance
    } else {
        Metric::Difference
    }
}

impl Metric {
    /// The column that clients see ranked.
    pub open spec fn text(self) -> Seq<char> {
        match self {
            Metric::Days => "days"@,
            Metric::VolumeCross => "volume_cross_pct"@,
            Metric::Distance => "pct_diff"@,
            Metric::Difference => "pct_diff"@,
        }
    }

    /// The column that clients see ranked.
    pub fn name(self) -> (r: &'static str)
        ensures
            r@ == self.text(),
    {
        match self {
            Metric::Days => "days",
            Metric::VolumeCross => "volume_cross_pct",
            Metric::Distance => "pct_diff",
            Metric::Difference => "pct_diff",
        }
    }
}

/// The side that an operator selects.
pub fn operator_side(operator: &str) -> (r: Side)
    ensures
        r == side_of(operator@),
{
    if same(operator, "above") || same(operator, "pct_below") || same(operator, "days_above")
        || same(operator, "volume_cross_pct") {
        Side::Over
    } else if same(operator, "below") || same(operator, "pct_above") || same(
        operator,
        "days_below",
    ) {
        Side::Under
    } else {
        Side::Neither
    }
}

/// Which way the price has to have crossed its field, where a list is about the
/// crossing.
pub fn crossing_direction(operator: &str) -> (r: Option<Side>)
    ensures
        r == crossing_side(operator@),
{
    if same(operator, "days_above") || same(operator, "volume_cross_pct") {
        Some(Side::Over)
    } else if same(operator, "days_below") {
        Some(Side::Under)
    } else {
        None
    }
}

/// What the rows of a list are ranked by.
pub fn operator_metric(operator: &str) -> (r: Metric)
    ensures
        r == metric_of(operator@),
{
    if same(operator, "days_above") || same(operator, "days_below") {
        Metric::Days
    } else if same(operator, "volume_cross_pct") {
        Metric::VolumeCross
    } else if same(operator, "pct_above") || same(operator, "pct_below") {
        Metric::Distance
    } else {
        Metric::Difference
    }
}

// ---------------------------------------------------------------------------
// Who may be on a list
// ---------------------------------------------------------------------------

/// A holding that may be on a list.
#[derive(Debug)]
pub struct HoldingCandidate<'a> {
    pub symbol: String,
    /// How many shares are left.
    pub shares: Number,
    /// The price in the symbol's own currency.
    pub price: Option<Number>,
    pub volume: Option<i64>,
    pub currency: Option<String>,
    pub fields: Option<&'a TextMap<Field>>,
    /// The stored bars with a close, in the order of their days, where they can
    /// be read.
    pub bars: Option<&'a Vec<PriceHistoryPoint>>,
}

/// A watched symbol that may be on a list.
#[derive(Debug)]
pub struct WatchCandidate<'a> {
    pub symbol: String,
    pub price: Option<Number>,
    pub volume: Option<i64>,
    pub breakthrough_price: Option<Number>,
    pub stop_loss_price: Option<Number>,
    pub fields: Option<&'a TextMap<Field>>,
    /// The stored bars with a close, in the order of their days, where they can
    /// be read.
    pub bars: Option<&'a Vec<PriceHistoryPoint>>,
}

/// When and with how much volume a price crossed its field.
#[derive(Clone, Copy, PartialEq, Eq, Structural, Debug)]
pub struct Crossing {
    /// Trading days since then.
    pub days: i64,
    /// The volume of that day against the average of the days before.
    pub volume_pct: Option<Number>,
}

/// From which table a row comes.
#[derive(Clone, Copy, PartialEq, Eq, Structural, Debug)]
pub enum Origin {
    Holdings,
    Watchlist,
}

impl Origin {
    /// The name under which clients see it.
    pub open spec fn text(self) -> Seq<char> {
        match self {
            Origin::Holdings => "holdings"@,
            Origin::Watchlist => "watchlist"@,
        }
    }

    /// The name under which clients see it.
    pub fn name(self) -> (r: &'static str)
        ensures
            r@ == self.text(),
    {
        match self {
            Origin::Holdings => "holdings",
            Origin::Watchlist => "watchlist",
        }
    }
}

/// A row of a list.
#[derive(Debug)]
pub struct Entry {
    pub symbol: String,
    pub price: Number,
    /// What the distance is measured from: the price or the volume.
    pub compare_value: Number,
    pub field_value: Number,
    pub diff: Number,
    pub pct_diff: Number,
    pub currency: Option<String>,
    pub is_trailing: bool,
    pub origin: Origin,
    pub days: Option<i64>,
    pub volume_cross_pct: Option<Number>,
}

/// What a row holds.
pub struct EntryView {
    pub symbol: Seq<char>,
    pub price: Number,
    pub compare_value: Number,
    pub field_value: Number,
    pub diff: Number,
    pub pct_diff: Number,
    pub currency: Option<Seq<char>>,
    pub is_trailing: bool,
    pub origin: Origin,
    pub days: Option<i64>,
    pub volume_cross_pct: Option<Number>,
}

impl View for Entry {
    type V = EntryView;

    open spec fn view(&self) -> EntryView {
        EntryView {
            symbol: self.symbol@,
            price: self.price,
            compare_value: self.compare_value,
            field_value: self.field_value,
            diff: self.diff,
            pct_diff: self.pct_diff,
            currency: option_view(self.currency),
            is_trailing: self.is_trailing,
            origin: self.origin,
            days: self.days,
            volume_cross_pct: self.volume_cross_pct,
        }
    }
}

impl Entry {
    fn copy(&self) -> (r: Entry)
        ensures
            r@ == self@,
    {
        let currency = match &self.currency {
            Some(c) => Some(c.clone()),
            None => None,
        };
        Entry {
            symbol: self.symbol.clone(),
            price: self.price,
            compare_value: self.compare_value,
            field_value: self.field_value,
            diff: self.diff,
            pct_diff: self.pct_diff,
            currency,
            is_trailing: self.is_trailing,
            origin: self.origin,
            days: self.days,
            volume_cross_pct: self.volume_cross_pct,
        }
    }
}

/// The views of some rows.
pub open spec fn entry_views(entries: Seq<Entry>) -> Seq<EntryView> {
    Seq::new(entries.len(), |i: int| entries[i]@)
}

/// Whether `cross` tells of every candidate and level whether the price has
/// crossed it, in one way each.
pub open spec fn is_crossing_finder<C: Fn(usize, Option<Number>) -> Option<Crossing>>(
    cross: C,
) -> bool {
    &&& forall|i: usize, level: Option<Number>| #[trigger] cross.requires((i, level))
    &&& forall|i: usize, level: Option<Number>, a: Option<Crossing>, b: Option<Crossing>|
        #[trigger] cross.ensures((i, level), a) && #[trigger] cross.ensures((i, level), b) ==> a
            == b
}

/// What `cross` tells of a candidate and a level.
pub open spec fn crossing<C: Fn(usize, Option<Number>) -> Option<Crossing>>(
    cross: C,
    i: usize,
    level: Option<Number>,
) -> Option<Crossing> {
    choose|r: Option<Crossing>| cross.ensures((i, level), r)
}

fn find_crossing<C: Fn(usize, Option<Number>) -> Option<Crossing>>(
    cross: &C,
    i: usize,
    level: Option<Number>,
) -> (r: Option<Crossing>)
    requires
        is_crossing_finder(*cross),
    ensures
        r == crossing(*cross, i, level),
{
    let r = cross(i, level);
    assert(cross.ensures((i, level), r));
    r
}

// ---------------------------------------------------------------------------
// What a list asks of a symbol
// ---------------------------------------------------------------------------

/// The table that the field of a list lives in, and its name.
pub open spec fn field_parts(field_key: Seq<char>) -> (Seq<char>, Seq<char>) {
    match split_once_text(field_key, ':') {
        Some(p) => p,
        None => (seq![], seq![]),
    }
}

/// A list as the engine reads it.
pub struct Question {
    pub by_volume: bool,
    /// Whether the field is derived from closes. Such a field exists for every
    /// symbol, whichever table that is in.
    pub derived: bool,
    pub field: Seq<char>,
    pub operator: Seq<char>,
}

/// A list as the engine reads it.
pub open spec fn question_of(def: ListDef) -> Question {
    Question {
        by_volume: option_view(def.compare) == Some("volume"@),
        derived: field_parts(def.field_key@).0 == "indicator"@,
        field: field_parts(def.field_key@).1,
        operator: def.operator@,
    }
}

/// What is held against the field.
pub open spec fn compared<F: Fn(Formula) -> Number>(
    calc: F,
    by_volume: bool,
    price: Number,
    volume: Option<i64>,
) -> Option<Number> {
    if by_volume {
        match volume {
            Some(v) => if v > 0 {
                Some(worth(calc, whole(v as int)))
            } else {
                None
            },
            None => None,
        }
    } else {
        Some(price)
    }
}

/// A number, where it is there and positive.
pub open spec fn if_positive(n: Option<Number>) -> Option<Number> {
    if n is Some && n->0.positive() {
        n
    } else {
        None
    }
}

/// A derived figure, where the bars can be read.
pub open spec fn derived_figure<F: Fn(Formula) -> Number>(
    calc: F,
    bars: Option<&Vec<PriceHistoryPoint>>,
    key: Seq<char>,
) -> Option<Number> {
    match bars {
        Some(b) => indicator_of(calc, b@, key),
        None => None,
    }
}

/// What a holding is held against, and whether that is a trailing stop. The
/// stop loss falls back to the trailing stop, so that what is protected by one
/// is on the lists of stop losses too.
pub open spec fn holding_field<F: Fn(Formula) -> Number>(
    calc: F,
    q: Question,
    h: HoldingCandidate,
    price: Number,
) -> Option<(Number, bool)> {
    if q.derived {
        match if_positive(derived_figure(calc, h.bars, q.field)) {
            Some(v) => Some((v, false)),
            None => None,
        }
    } else if q.field == "stop_loss"@ && h.bars is Some {
        match stop_loss_of(calc, fields_view(h.fields), h.bars->0@, Some(price), None) {
            Some(s) => if s.0.positive() {
                Some(s)
            } else {
                None
            },
            None => None,
        }
    } else {
        match if_positive(field_number(fields_view(h.fields), q.field)) {
            Some(v) => Some((v, false)),
            None => None,
        }
    }
}

/// What a watched symbol is held against.
pub open spec fn watch_field<F: Fn(Formula) -> Number>(
    calc: F,
    q: Question,
    w: WatchCandidate,
) -> Option<Number> {
    if_positive(
        if q.derived {
            derived_figure(calc, w.bars, q.field)
        } else if q.field == "breakthrough_price"@ {
            w.breakthrough_price
        } else if q.field == "stop_loss_price"@ {
            w.stop_loss_price
        } else {
            field_number(fields_view(w.fields), q.field)
        },
    )
}

/// The row of candidate number `n`, where it qualifies: `base` with its distance
/// and its crossing filled in. A row whose crossing cannot be dated has nothing
/// to rank on and is left out.
pub open spec fn row_of<
    F: Fn(Formula) -> Number,
    C: Fn(usize, Option<Number>) -> Option<Crossing>,
>(
    calc: F,
    cross: C,
    q: Question,
    n: usize,
    base: EntryView,
) -> Option<EntryView> {
    let diff = worth(calc, difference(num(base.compare_value), num(base.field_value)));
    let row = EntryView {
        diff,
        pct_diff: worth(calc, percentage(num(diff), num(base.field_value))),
        days: None,
        volume_cross_pct: None,
        ..base
    };
    if !on_side(side_of(q.operator), diff) {
        None
    } else if crossing_side(q.operator) is None {
        Some(row)
    } else {
        match crossing(
            cross,
            n,
            if q.derived {
                None
            } else {
                Some(base.field_value)
            },
        ) {
            Some(c) => Some(
                EntryView { days: Some(c.days), volume_cross_pct: c.volume_pct, ..row },
            ),
            None => None,
        }
    }
}

/// The row of a holding, where it qualifies.
pub open spec fn holding_row<
    F: Fn(Formula) -> Number,
    C: Fn(usize, Option<Number>) -> Option<Crossing>,
>(calc: F, cross: C, q: Question, n: usize, h: HoldingCandidate) -> Option<EntryView> {
    if !h.shares.remains() || h.price is None {
        None
    } else {
        match (
            compared(calc, q.by_volume, h.price->0, h.volume),
            holding_field(calc, q, h, h.price->0),
        ) {
            (Some(against), Some(field)) => row_of(
                calc,
                cross,
                q,
                n,
                EntryView {
                    symbol: h.symbol@,
                    price: h.price->0,
                    compare_value: against,
                    field_value: field.0,
                    diff: field.0,
                    pct_diff: field.0,
                    currency: option_view(h.currency),
                    is_trailing: field.1,
                    origin: Origin::Holdings,
                    days: None,
                    volume_cross_pct: None,
                },
            ),
            _ => None,
        }
    }
}

/// The row of a watched symbol, where it qualifies.
pub open spec fn watch_row<
    F: Fn(Formula) -> Number,
    C: Fn(usize, Option<Number>) -> Option<Crossing>,
>(calc: F, cross: C, q: Question, n: usize, w: WatchCandidate) -> Option<EntryView> {
    if w.price is None {
        None
    } else {
        match (compared(calc, q.by_volume, w.price->0, w.volume), watch_field(calc, q, w)) {
            (Some(against), Some(field)) => row_of(
                calc,
                cross,
                q,
                n,
                EntryView {
                    symbol: w.symbol@,
                    price: w.price->0,
                    compare_value: against,
                    field_value: field,
                    diff: field,
                    pct_diff: field,
                    currency: None,
                    is_trailing: false,
                    origin: Origin::Watchlist,
                    days: None,
                    volume_cross_pct: None,
                },
            ),
            _ => None,
        }
    }
}

/// The rows of those holdings that qualify.
pub open spec fn holding_rows<
    F: Fn(Formula) -> Number,
    C: Fn(usize, Option<Number>) -> Option<Crossing>,
>(calc: F, cross: C, q: Question, hs: Seq<HoldingCandidate>) -> Seq<EntryView>
    decreases hs.len(),
{
    if hs.len() == 0 {
        seq![]
    } else {
        let earlier = holding_rows(calc, cross, q, hs.drop_last());
        match holding_row(calc, cross, q, (hs.len() - 1) as usize, hs.last()) {
            Some(e) => earlier.push(e),
            None => earlier,
        }
    }
}

/// Whether a symbol is among the rows.
pub open spec fn listed(rows: Seq<EntryView>, symbol: Seq<char>) -> bool {
    exists|i: int| 0 <= i < rows.len() && (#[trigger] rows[i]).symbol == symbol
}

/// The rows with those watched symbols that qualify and are not among them
/// already. Their numbers go on from `from`.
pub open spec fn watch_rows<
    F: Fn(Formula) -> Number,
    C: Fn(usize, Option<Number>) -> Option<Crossing>,
>(
    calc: F,
    cross: C,
    q: Question,
    rows: Seq<EntryView>,
    ws: Seq<WatchCandidate>,
    from: int,
) -> Seq<EntryView>
    decreases ws.len(),
{
    if ws.len() == 0 {
        rows
    } else {
        let earlier = watch_rows(calc, cross, q, rows, ws.drop_last(), from);
        let w = ws.last();
        if listed(earlier, w.symbol@) {
            earlier
        } else {
            match watch_row(calc, cross, q, (from + ws.len() - 1) as usize, w) {
                Some(e) => earlier.push(e),
                None => earlier,
            }
        }
    }
}

/// Whether a list takes its symbols from that table.
pub open spec fn draws_on(def: ListDef, table: Seq<char>) -> bool {
    &&& def.source@ == table || def.source@ == "both"@
    &&& question_of(def).derived || field_parts(def.field_key@).0 == table
}

/// All rows that qualify for a list, before they are ranked.
pub open spec fn qualifying<
    F: Fn(Formula) -> Number,
    C: Fn(usize, Option<Number>) -> Option<Crossing>,
>(
    calc: F,
    cross: C,
    def: ListDef,
    hs: Seq<HoldingCandidate>,
    ws: Seq<WatchCandidate>,
) -> Seq<EntryView> {
    let held = if draws_on(def, "holdings"@) {
        holding_rows(calc, cross, question_of(def), hs)
    } else {
        seq![]
    };
    if draws_on(def, "watchlist"@) {
        watch_rows(calc, cross, question_of(def), held, ws, hs.len() as int)
    } else {
        held
    }
}

/// What a row is ranked by.
pub open spec fn rank_of(e: EntryView, metric: Metric) -> Option<int> {
    match metric {
        Metric::Days => match e.days {
            Some(d) => Some(d as int),
            None => None,
        },
        Metric::VolumeCross => match e.volume_cross_pct {
            Some(v) => v.place(),
            None => None,
        },
        Metric::Distance => e.pct_diff.absolute().place(),
        Metric::Difference => e.pct_diff.place(),
    }
}

/// What the rows are ranked by.
pub open spec fn ranks_of(rows: Seq<EntryView>, metric: Metric) -> Seq<Option<int>> {
    Seq::new(rows.len(), |i: int| rank_of(rows[i], metric))
}

/// The rows in that order.
pub open spec fn picked(rows: Seq<EntryView>, order: Seq<int>) -> Seq<EntryView> {
    Seq::new(order.len(), |i: int| rows[order[i]])
}

/// The direction in which a list is ranked: the one a request asks for, else
/// the one the list is set to.
pub open spec fn direction(def: ListDef, asked: Option<Seq<char>>) -> Option<Seq<char>> {
    match asked {
        Some(d) => Some(d),
        None => option_view(def.sort),
    }
}


// ---------------------------------------------------------------------------
// The engine
// ---------------------------------------------------------------------------

/// A list as the engine reads it.
struct Asked<'a> {
    by_volume: bool,
    derived: bool,
    field: &'a str,
    operator: &'a str,
}

impl<'a> Asked<'a> {
    spec fn question(self) -> Question {
        Question {
            by_volume: self.by_volume,
            derived: self.derived,
            field: self.field@,
            operator: self.operator@,
        }
    }
}

fn number_under(fields: Option<&TextMap<Field>>, key: &str) -> (r: Option<Number>)
    ensures
        r == field_number(fields_view(fields), key@),
{
    match fields {
        Some(m) => match m.get(key) {
            Some(f) => f.number,
            None => None,
        },
        None => None,
    }
}

fn positive(n: Option<Number>) -> (r: Option<Number>)
    ensures
        r == if_positive(n),
{
    match n {
        Some(v) => if v.is_positive() {
            Some(v)
        } else {
            None
        },
        None => None,
    }
}

fn compare_against<F: Fn(Formula) -> Number>(
    by_volume: bool,
    price: Number,
    volume: Option<i64>,
    calc: &F,
) -> (r: Option<Number>)
    requires
        is_calculator(*calc),
    ensures
        r == compared(*calc, by_volume, price, volume),
{
    if by_volume {
        match volume {
            Some(v) => if v > 0 {
                Some(evaluate(calc, Formula::of_whole(v)))
            } else {
                None
            },
            None => None,
        }
    } else {
        Some(price)
    }
}

fn figure<F: Fn(Formula) -> Number>(
    bars: Option<&Vec<PriceHistoryPoint>>,
    key: &str,
    calc: &F,
) -> (r: Option<Number>)
    requires
        is_calculator(*calc),
    ensures
        r == derived_figure(*calc, bars, key@),
{
    match bars {
        Some(b) => indicator_value(b, key, calc),
        None => None,
    }
}

fn holding_against<F: Fn(Formula) -> Number>(
    q: &Asked,
    h: &HoldingCandidate,
    price: Number,
    calc: &F,
) -> (r: Option<(Number, bool)>)
    requires
        is_calculator(*calc),
    ensures
        r == holding_field(*calc, q.question(), *h, price),
{
    if q.derived {
        return match positive(figure(h.bars, q.field, calc)) {
            Some(v) => Some((v, false)),
            None => None,
        };
    }
    if same(q.field, "stop_loss") {
        match h.bars {
            Some(b) => {
                return match effective_stop_loss(h.fields, b, Some(price), None, calc) {
                    Some((sl, trailing)) => if sl.is_positive() {
                        Some((sl, trailing))
                    } else {
                        None
                    },
                    None => None,
                };
            },
            None => {},
        }
    }
    match positive(number_under(h.fields, q.field)) {
        Some(v) => Some((v, false)),
        None => None,
    }
}

fn watch_against<F: Fn(Formula) -> Number>(q: &Asked, w: &WatchCandidate, calc: &F) -> (r: Option<
    Number,
>)
    requires
        is_calculator(*calc),
    ensures
        r == watch_field(*calc, q.question(), *w),
{
    let value = if q.derived {
        figure(w.bars, q.field, calc)
    } else if same(q.field, "breakthrough_price") {
        w.breakthrough_price
    } else if same(q.field, "stop_loss_price") {
        w.stop_loss_price
    } else {
        number_under(w.fields, q.field)
    };
    positive(value)
}

fn is_on_side(side: Side, diff: Number) -> (r: bool)
    ensures
        r == on_side(side, diff),
{
    match side {
        Side::Over => diff.is_positive(),
        Side::Under => diff.is_negative(),
        Side::Neither => false,
    }
}

/// Finishes a row whose price, field and origin are known, where it qualifies.
fn finish_row<F: Fn(Formula) -> Number, C: Fn(usize, Option<Number>) -> Option<Crossing>>(
    q: &Asked,
    n: usize,
    base: Entry,
    calc: &F,
    cross: &C,
) -> (r: Option<Entry>)
    requires
        is_calculator(*calc),
        is_crossing_finder(*cross),
    ensures
        match r {
            Some(e) => row_of(*calc, *cross, q.question(), n, base@) == Some(e@),
            None => row_of(*calc, *cross, q.question(), n, base@) is None,
        },
{
    let mut row = base;
    row.diff = evaluate(
        calc,
        Formula::of(row.compare_value).minus(Formula::of(row.field_value)),
    );
    row.pct_diff = evaluate(
        calc,
        Formula::of(row.diff).percent_of(Formula::of(row.field_value)),
    );
    row.days = None;
    row.volume_cross_pct = None;
    if !is_on_side(operator_side(q.operator), row.diff) {
        return None;
    }
    match crossing_direction(q.operator) {
        None => Some(row),
        Some(_) => {
            let level = if q.derived {
                None
            } else {
                Some(row.field_value)
            };
            match find_crossing(cross, n, level) {
                Some(c) => {
                    row.days = Some(c.days);
                    row.volume_cross_pct = c.volume_pct;
                    Some(row)
                },
                None => None,
            }
        },
    }
}

fn try_holding<F: Fn(Formula) -> Number, C: Fn(usize, Option<Number>) -> Option<Crossing>>(
    q: &Asked,
    n: usize,
    h: &HoldingCandidate,
    calc: &F,
    cross: &C,
) -> (r: Option<Entry>)
    requires
        is_calculator(*calc),
        is_crossing_finder(*cross),
    ensures
        match r {
            Some(e) => holding_row(*calc, *cross, q.question(), n, *h) == Some(e@),
            None => holding_row(*calc, *cross, q.question(), n, *h) is None,
        },
{
    if !h.shares.is_remaining() {
        return None;
    }
    let price = match h.price {
        Some(p) => p,
        None => return None,
    };
    let against = match compare_against(q.by_volume, price, h.volume, calc) {
        Some(v) => v,
        None => return None,
    };
    let (field_value, is_trailing) = match holding_against(q, h, price, calc) {
        Some(f) => f,
        None => return None,
    };
    let currency = match &h.currency {
        Some(c) => Some(c.clone()),
        None => None,
    };
    let base = Entry {
        symbol: h.symbol.clone(),
        price,
        compare_value: against,
        field_value,
        diff: field_value,
        pct_diff: field_value,
        currency,
        is_trailing,
        origin: Origin::Holdings,
        days: None,
        volume_cross_pct: None,
    };
    finish_row(q, n, base, calc, cross)
}

fn try_watched<F: Fn(Formula) -> Number, C: Fn(usize, Option<Number>) -> Option<Crossing>>(
    q: &Asked,
    n: usize,
    w: &WatchCandidate,
    calc: &F,
    cross: &C,
) -> (r: Option<Entry>)
    requires
        is_calculator(*calc),
        is_crossing_finder(*cross),
    ensures
        match r {
            Some(e) => watch_row(*calc, *cross, q.question(), n, *w) == Some(e@),
            None => watch_row(*calc, *cross, q.question(), n, *w) is None,
        },
{
    let price = match w.price {
        Some(p) => p,
        None => return None,
    };
    let against = match compare_against(q.by_volume, price, w.volume, calc) {
        Some(v) => v,
        None => return None,
    };
    let field_value = match watch_against(q, w, calc) {
        Some(f) => f,
        None => return None,
    };
    let base = Entry {
        symbol: w.symbol.clone(),
        price,
        compare_value: against,
        field_value,
        diff: field_value,
        pct_diff: field_value,
        currency: None,
        is_trailing: false,
        origin: Origin::Watchlist,
        days: None,
        volume_cross_pct: None,
    };
    finish_row(q, n, base, calc, cross)
}

fn is_listed(rows: &Vec<Entry>, symbol: &str) -> (r: bool)
    ensures
        r == listed(entry_views(rows@), symbol@),
{
    let mut i: usize = 0;
    while i < rows.len()
        invariant
            i <= rows.len(),
            forall|j: int| 0 <= j < i ==> (#[trigger] entry_views(rows@)[j]).symbol != symbol@,
        decreases rows.len() - i,
    {
        assert(entry_views(rows@)[i as int].symbol == rows@[i as int].symbol@);
        if same(rows[i].symbol.as_str(), symbol) {
            return true;
        }
        i += 1;
    }
    false
}

/// All rows that qualify for a list, before they are ranked.
fn qualifying_rows<F: Fn(Formula) -> Number, C: Fn(usize, Option<Number>) -> Option<Crossing>>(
    def: &ListDef,
    q: &Asked,
    table: &str,
    hs: &Vec<HoldingCandidate>,
    ws: &Vec<WatchCandidate>,
    calc: &F,
    cross: &C,
) -> (r: Vec<Entry>)
    requires
        is_calculator(*calc),
        is_crossing_finder(*cross),
        q.question() == question_of(*def),
        table@ == field_parts(def.field_key@).0,
        hs.len() + ws.len() <= usize::MAX,
    ensures
        entry_views(r@) == qualifying(*calc, *cross, *def, hs@, ws@),
{
    let mut rows: Vec<Entry> = Vec::new();
    assert(entry_views(rows@) =~= seq![]);
    let both = same(def.source.as_str(), "both");
    if (both || same(def.source.as_str(), "holdings")) && (q.derived || same(table, "holdings")) {
        let mut i: usize = 0;
        while i < hs.len()
            invariant
                i <= hs.len(),
                is_calculator(*calc),
                is_crossing_finder(*cross),
                q.question() == question_of(*def),
                entry_views(rows@) == holding_rows(
                    *calc,
                    *cross,
                    question_of(*def),
                    hs@.take(i as int),
                ),
            decreases hs.len() - i,
        {
            let ghost before = entry_views(rows@);
            assert(hs@.take(i + 1).drop_last() =~= hs@.take(i as int));
            match try_holding(q, i, &hs[i], calc, cross) {
                Some(e) => {
                    let ghost v = e@;
                    rows.push(e);
                    assert(entry_views(rows@) =~= before.push(v));
                },
                None => {},
            }
            i += 1;
        }
        assert(hs@.take(hs.len() as int) =~= hs@);
    }
    if (both || same(def.source.as_str(), "watchlist")) && (q.derived || same(table, "watchlist")) {
        let ghost held = entry_views(rows@);
        let mut i: usize = 0;
        assert(ws@.take(0) =~= Seq::<WatchCandidate>::empty());
        while i < ws.len()
            invariant
                i <= ws.len(),
                is_calculator(*calc),
                is_crossing_finder(*cross),
                q.question() == question_of(*def),
                hs.len() + ws.len() <= usize::MAX,
                entry_views(rows@) == watch_rows(
                    *calc,
                    *cross,
                    question_of(*def),
                    held,
                    ws@.take(i as int),
                    hs.len() as int,
                ),
            decreases ws.len() - i,
        {
            let ghost before = entry_views(rows@);
            assert(ws@.take(i + 1).drop_last() =~= ws@.take(i as int));
            if !is_listed(&rows, ws[i].symbol.as_str()) {
                match try_watched(q, hs.len() + i, &ws[i], calc, cross) {
                    Some(e) => {
                        let ghost v = e@;
                        rows.push(e);
                        assert(entry_views(rows@) =~= before.push(v));
                    },
                    None => {},
                }
            }
            i += 1;
        }
        assert(ws@.take(ws.len() as int) =~= ws@);
    }
    rows
}

fn rank_row(e: &Entry, metric: Metric) -> (r: Option<i64>)
    ensures
        match r {
            Some(v) => rank_of(e@, metric) == Some(v as int),
            None => rank_of(e@, metric) is None,
        },
{
    match metric {
        Metric::Days => e.days,
        Metric::VolumeCross => match e.volume_cross_pct {
            Some(v) => v.rank(),
            None => None,
        },
        Metric::Distance => e.pct_diff.abs().rank(),
        Metric::Difference => e.pct_diff.rank(),
    }
}

// ---------------------------------------------------------------------------
// A list as it is shown
// ---------------------------------------------------------------------------

/// A field that users defined.
#[derive(Debug)]
pub struct FieldDef {
    pub key: String,
    pub label: String,
}

/// The label of the first definition with that key.
pub open spec fn defined_label(defs: Seq<FieldDef>, key: Seq<char>, i: int) -> Option<Seq<char>>
    decreases defs.len() - i,
{
    if i < 0 || i >= defs.len() {
        None
    } else if defs[i].key@ == key {
        Some(defs[i].label@)
    } else {
        defined_label(defs, key, i + 1)
    }
}

/// The label of a field that is built in; any other field is its own label.
pub open spec fn builtin_label(key: Seq<char>) -> Seq<char> {
    if key == "sma50"@ {
        "50-Day SMA"@
    } else if key == "sma150"@ {
        "150-Day SMA"@
    } else if key == "ema40w"@ {
        "40-Week EMA"@
    } else if key == "breakthrough_price"@ {
        "Breakthrough Price"@
    } else if key == "stop_loss_price"@ || key == "stop_loss"@ {
        "Stop Loss Price"@
    } else if key == "trailing_sell_pct"@ {
        "Trailing Sell %"@
    } else {
        key
    }
}

/// The label of a field.
pub open spec fn label_of(defs: Seq<FieldDef>, key: Seq<char>) -> Seq<char> {
    match defined_label(defs, key, 0) {
        Some(l) => l,
        None => builtin_label(key),
    }
}

/// The label of a field: the one its definition gives, else the built-in one.
pub fn field_label(defs: &Vec<FieldDef>, key: &str) -> (r: String)
    ensures
        r@ == label_of(defs@, key@),
{
    let mut i: usize = 0;
    while i < defs.len()
        invariant
            i <= defs.len(),
            defined_label(defs@, key@, 0) == defined_label(defs@, key@, i as int),
        decreases defs.len() - i,
    {
        if same(defs[i].key.as_str(), key) {
            return defs[i].label.clone();
        }
        i += 1;
    }
    if same(key, "sma50") {
        "50-Day SMA".to_owned()
    } else if same(key, "sma150") {
        "150-Day SMA".to_owned()
    } else if same(key, "ema40w") {
        "40-Week EMA".to_owned()
    } else if same(key, "breakthrough_price") {
        "Breakthrough Price".to_owned()
    } else if same(key, "stop_loss_price") || same(key, "stop_loss") {
        "Stop Loss Price".to_owned()
    } else if same(key, "trailing_sell_pct") {
        "Trailing Sell %".to_owned()
    } else {
        key.to_owned()
    }
}

/// How many rows a list shows where its length is not set.
pub const DEFAULT_LIMIT: usize = 15;

/// A list as it is shown.
#[derive(Debug)]
pub struct CustomList {
    /// The table that the field lives in.
    pub field_source: String,
    pub by_volume: bool,
    pub metric: Metric,
    pub field_label: String,
    /// The direction that was applied.
    pub sort: String,
    /// Whether more rows qualified than are shown.
    pub truncated: bool,
    pub entries: Vec<Entry>,
}

/// The length of a list.
pub open spec fn limit_of(def: ListDef) -> int {
    match def.limit {
        Some(n) => n as int,
        None => DEFAULT_LIMIT as int,
    }
}

/// Whether `shown` are the rows of a list: the first of all that qualify, in
/// the direction that applies.
pub open spec fn is_shown(
    shown: Seq<EntryView>,
    all: Seq<EntryView>,
    metric: Metric,
    descending: bool,
    limit: int,
) -> bool {
    exists|order: Seq<int>| #[trigger]
        is_top(order, ranks_of(all, metric), descending, limit) && shown == picked(all, order)
}

/// Whether `l` is the list as it is to be shown.
pub open spec fn is_custom_list<
    F: Fn(Formula) -> Number,
    C: Fn(usize, Option<Number>) -> Option<Crossing>,
>(
    calc: F,
    cross: C,
    l: CustomList,
    def: ListDef,
    asked: Option<Seq<char>>,
    hs: Seq<HoldingCandidate>,
    ws: Seq<WatchCandidate>,
    holding_defs: Seq<FieldDef>,
    watch_defs: Seq<FieldDef>,
) -> bool {
    let all = qualifying(calc, cross, def, hs, ws);
    let dir = direction(def, asked);
    let parts = field_parts(def.field_key@);
    &&& l.field_source@ == parts.0
    &&& l.by_volume == question_of(def).by_volume
    &&& l.metric == metric_of(def.operator@)
    &&& l.field_label@ == label_of(
        if parts.0 == "holdings"@ {
            holding_defs
        } else {
            watch_defs
        },
        parts.1,
    )
    &&& l.sort@ == (match dir {
        Some(d) => d,
        None => "asc"@,
    })
    &&& l.truncated == (all.len() > limit_of(def))
    &&& is_shown(
        entry_views(l.entries@),
        all,
        metric_of(def.operator@),
        dir == Some("desc"@),
        limit_of(def),
    )
}

/// A dashboard list: which symbols qualify, ranked and cut to its length.
///
/// The rows are ranked before they are cut, so that turning the direction round
/// changes which rows are shown and not just their order. `asked` is the
/// direction that the request asks for. `cross` tells of a candidate, by its
/// number among the holdings and then the watched symbols, when it crossed a
/// level; without a level, when it crossed the derived figure.
pub fn custom_list<F: Fn(Formula) -> Number, C: Fn(usize, Option<Number>) -> Option<Crossing>>(
    def: &ListDef,
    asked: Option<&str>,
    holdings: &Vec<HoldingCandidate>,
    watched: &Vec<WatchCandidate>,
    holding_defs: &Vec<FieldDef>,
    watch_defs: &Vec<FieldDef>,
    calc: &F,
    cross: &C,
) -> (r: CustomList)
    requires
        is_calculator(*calc),
        is_crossing_finder(*cross),
        holdings.len() + watched.len() <= usize::MAX,
    ensures
        is_custom_list(
            *calc,
            *cross,
            r,
            *def,
            option_slice_view(asked),
            holdings@,
            watched@,
            holding_defs@,
            watch_defs@,
        ),
{
    let (table, field) = match split_once(def.field_key.as_str(), ':') {
        Some(p) => p,
        None => ("", ""),
    };
    proof {
        reveal_strlit("");
        assert(""@ =~= seq![]);
    }
    let by_volume = match &def.compare {
        Some(c) => same(c.as_str(), "volume"),
        None => false,
    };
    let q = Asked {
        by_volume,
        derived: same(table, "indicator"),
        field,
        operator: def.operator.as_str(),
    };
    let rows = qualifying_rows(def, &q, table, holdings, watched, calc, cross);
    let metric = operator_metric(def.operator.as_str());
    let sort = match asked {
        Some(d) => Some(d),
        None => match &def.sort {
            Some(s) => Some(s.as_str()),
            None => None,
        },
    };
    let descending = match sort {
        Some(d) => same(d, "desc"),
        None => false,
    };
    let limit: usize = match def.limit {
        Some(n) => n,
        None => DEFAULT_LIMIT,
    };
    let mut ranks: Vec<Option<i64>> = Vec::new();
    let mut i: usize = 0;
    while i < rows.len()
        invariant
            i <= rows.len(),
            ranks@.len() == i,
            forall|j: int|
                0 <= j < i ==> rank_views(ranks@)[j] == rank_of(#[trigger] rows@[j]@, metric),
        decreases rows.len() - i,
    {
        let ghost before = ranks@;
        let rank = rank_row(&rows[i], metric);
        ranks.push(rank);
        proof {
            assert forall|j: int| 0 <= j <= i implies rank_views(ranks@)[j] == rank_of(
                #[trigger] rows@[j]@,
                metric,
            ) by {
                if j < i {
                    assert(rank_views(before)[j] == rank_views(ranks@)[j]);
                }
            }
        }
        i += 1;
    }
    assert(rank_views(ranks@) =~= ranks_of(entry_views(rows@), metric));
    let order = ranked_positions(&ranks, descending, limit);
    let mut entries: Vec<Entry> = Vec::new();
    let mut k: usize = 0;
    while k < order.len()
        invariant
            k <= order.len(),
            ranks@.len() == rows@.len(),
            is_top(position_views(order@), rank_views(ranks@), descending, limit as int),
            entries@.len() == k,
            forall|j: int|
                0 <= j < k ==> (#[trigger] entries@[j])@ == rows@[order@[j] as int]@,
        decreases order.len() - k,
    {
        assert(position_views(order@)[k as int] == order@[k as int]);
        let e = rows[order[k]].copy();
        entries.push(e);
        k += 1;
    }
    assert forall|j: int| 0 <= j < order@.len() implies 0 <= #[trigger] order@[j] < rows@.len() by {
        assert(position_views(order@)[j] == order@[j]);
    }
    assert(entry_views(entries@) =~= picked(entry_views(rows@), position_views(order@)));
    let defs = if same(table, "holdings") {
        holding_defs
    } else {
        watch_defs
    };
    CustomList {
        field_source: table.to_owned(),
        by_volume,
        metric,
        field_label: field_label(defs, field),
        sort: match sort {
            Some(d) => d.to_owned(),
            None => "asc".to_owned(),
        },
        truncated: rows.len() > limit,
        entries,
    }
}


// ---------------------------------------------------------------------------
// Laws
// ---------------------------------------------------------------------------

/// Every operator that the settings accept selects one side: an accepted list
/// never silently matches nothing.
pub proof fn accepted_operators_select(operator: Seq<char>)
    requires
        list_operators_text().contains(operator),
    ensures
        side_of(operator) != Side::Neither,
{
    let i = choose|i: int|
        0 <= i < list_operators_text().len() && list_operators_text()[i] == operator;
    assert(list_operators_text().len() == 7);
}

/// A list about crossings selects the side that was crossed to.
pub proof fn a_crossing_list_selects_the_side_crossed_to(operator: Seq<char>)
    requires
        crossing_side(operator) is Some,
    ensures
        crossing_side(operator) == Some(side_of(operator)),
{
    reveal_strlit("days_below");
    reveal_strlit("days_above");
    reveal_strlit("volume_cross_pct");
    reveal_strlit("above");
    reveal_strlit("pct_below");
    assert("days_below"@[5] == 'b');
    assert("days_above"@[5] == 'a');
    assert("above"@.len() == 5 && "days_below"@.len() == 10 && "pct_below"@.len() == 9
        && "volume_cross_pct"@.len() == 16);
}

/// No two rows stand each before the other, and of two rows one does.
pub proof fn the_ranking_is_strict(ranks: Seq<Option<int>>, descending: bool, i: int, j: int)
    requires
        0 <= i < ranks.len(),
        0 <= j < ranks.len(),
        i != j,
    ensures
        shown_before(ranks, descending, i, j) != shown_before(ranks, descending, j, i),
{
}

/// A row without the figure it is ranked by comes after every row that has it,
/// in either direction.
pub proof fn missing_figures_come_last(ranks: Seq<Option<int>>, descending: bool, i: int, j: int)
    requires
        0 <= i < ranks.len(),
        0 <= j < ranks.len(),
        ranks[i] is Some,
        ranks[j] is None,
    ensures
        shown_before(ranks, descending, i, j),
        !shown_before(ranks, descending, j, i),
{
}

proof fn lemma_top_agrees(
    a: Seq<int>,
    b: Seq<int>,
    ranks: Seq<Option<int>>,
    descending: bool,
    limit: int,
    k: int,
)
    requires
        is_top(a, ranks, descending, limit),
        is_top(b, ranks, descending, limit),
        0 <= k < a.len(),
        forall|l: int| 0 <= l < k ==> a[l] == b[l],
    ensures
        !shown_before(ranks, descending, b[k], a[k]) || a[k] == b[k],
{
    if a[k] != b[k] && shown_before(ranks, descending, b[k], a[k]) {
        if a.contains(b[k]) {
            let m = choose|m: int| 0 <= m < a.len() && a[m] == b[k];
            if m < k {
                assert(a[m] == b[m]);
                assert(shown_before(ranks, descending, b[m], b[k]));
            } else {
                assert(shown_before(ranks, descending, a[k], a[m]));
            }
        } else {
            assert(shown_before(ranks, descending, a[k], b[k]));
        }
        the_ranking_is_strict(ranks, descending, a[k], b[k]);
    }
}

proof fn lemma_top_prefix(
    a: Seq<int>,
    b: Seq<int>,
    ranks: Seq<Option<int>>,
    descending: bool,
    limit: int,
    k: int,
)
    requires
        is_top(a, ranks, descending, limit),
        is_top(b, ranks, descending, limit),
        0 <= k <= a.len(),
    ensures
        forall|l: int| 0 <= l < k ==> a[l] == b[l],
    decreases k,
{
    if k > 0 {
        lemma_top_prefix(a, b, ranks, descending, limit, k - 1);
        lemma_top_agrees(a, b, ranks, descending, limit, k - 1);
        lemma_top_agrees(b, a, ranks, descending, limit, k - 1);
        if a[k - 1] != b[k - 1] {
            the_ranking_is_strict(ranks, descending, a[k - 1], b[k - 1]);
        }
    }
}

/// The ranks, the direction and the length leave one order only.
pub proof fn the_order_is_settled(
    a: Seq<int>,
    b: Seq<int>,
    ranks: Seq<Option<int>>,
    descending: bool,
    limit: int,
)
    requires
        is_top(a, ranks, descending, limit),
        is_top(b, ranks, descending, limit),
    ensures
        a == b,
{
    lemma_top_prefix(a, b, ranks, descending, limit, a.len() as int);
    assert(a =~= b);
}

/// The rows to show and their order are settled by the ranks, the direction and
/// the length.
pub proof fn the_rows_shown_are_settled(
    a: Seq<EntryView>,
    b: Seq<EntryView>,
    all: Seq<EntryView>,
    metric: Metric,
    descending: bool,
    limit: int,
)
    requires
        is_shown(a, all, metric, descending, limit),
        is_shown(b, all, metric, descending, limit),
    ensures
        a == b,
{
    let ranks = ranks_of(all, metric);
    let oa = choose|order: Seq<int>| #[trigger]
        is_top(order, ranks, descending, limit) && a == picked(all, order);
    let ob = choose|order: Seq<int>| #[trigger]
        is_top(order, ranks, descending, limit) && b == picked(all, order);
    the_order_is_settled(oa, ob, ranks, descending, limit);
}

/// The rows are ranked before they are cut: every row that is left out stands
/// behind every row that is shown.
pub proof fn a_row_left_out_ranks_behind(
    order: Seq<int>,
    ranks: Seq<Option<int>>,
    descending: bool,
    limit: int,
    shown: int,
    left_out: int,
)
    requires
        is_top(order, ranks, descending, limit),
        order.contains(shown),
        0 <= left_out < ranks.len(),
        !order.contains(left_out),
    ensures
        shown_before(ranks, descending, shown, left_out),
        !shown_before(ranks, descending, left_out, shown),
{
    let k = choose|k: int| 0 <= k < order.len() && order[k] == shown;
    assert(shown_before(ranks, descending, order[k], left_out));
    the_ranking_is_strict(ranks, descending, shown, left_out);
}

/// Turning the direction round turns the order of any two rows that differ in
/// what they are ranked by.
pub proof fn turning_round_turns_the_order(ranks: Seq<Option<int>>, i: int, j: int)
    requires
        0 <= i < ranks.len(),
        0 <= j < ranks.len(),
        ranks[i] is Some,
        ranks[j] is Some,
        ranks[i] != ranks[j],
    ensures
        shown_before(ranks, false, i, j) == shown_before(ranks, true, j, i),
{
}

/// Each symbol once.
pub open spec fn symbols_distinct(rows: Seq<EntryView>) -> bool {
    forall|i: int, j: int|
        0 <= i < rows.len() && 0 <= j < rows.len() && (#[trigger] rows[i]).symbol == (
        #[trigger] rows[j]).symbol ==> i == j
}

proof fn lemma_holding_row_symbols<
    F: Fn(Formula) -> Number,
    C: Fn(usize, Option<Number>) -> Option<Crossing>,
>(calc: F, cross: C, q: Question, hs: Seq<HoldingCandidate>)
    requires
        forall|i: int, j: int|
            0 <= i < hs.len() && 0 <= j < hs.len() && (#[trigger] hs[i]).symbol@ == (
            #[trigger] hs[j]).symbol@ ==> i == j,
    ensures
        symbols_distinct(holding_rows(calc, cross, q, hs)),
        forall|k: int|
            0 <= k < holding_rows(calc, cross, q, hs).len() ==> exists|i: int|
                0 <= i < hs.len() && (#[trigger] hs[i]).symbol@ == (#[trigger] holding_rows(
                    calc,
                    cross,
                    q,
                    hs,
                )[k]).symbol,
    decreases hs.len(),
{
    if hs.len() > 0 {
        let less = hs.drop_last();
        assert forall|i: int, j: int|
            0 <= i < less.len() && 0 <= j < less.len() && (#[trigger] less[i]).symbol@ == (
            #[trigger] less[j]).symbol@ implies i == j by {
            assert(hs[i].symbol@ == hs[j].symbol@);
        }
        lemma_holding_row_symbols(calc, cross, q, less);
        let earlier = holding_rows(calc, cross, q, less);
        let rows = holding_rows(calc, cross, q, hs);
        let last = hs.len() - 1;
        assert forall|k: int| 0 <= k < rows.len() implies exists|i: int|
            0 <= i < hs.len() && (#[trigger] hs[i]).symbol@ == (#[trigger] rows[k]).symbol by {
            if k < earlier.len() {
                assert(rows[k] == earlier[k]);
                let i = choose|i: int|
                    0 <= i < less.len() && (#[trigger] less[i]).symbol@ == earlier[k].symbol;
                assert(hs[i].symbol@ == rows[k].symbol);
            } else {
                assert(hs[last].symbol@ == rows[k].symbol);
            }
        }
        assert forall|i: int, j: int|
            0 <= i < rows.len() && 0 <= j < rows.len() && (#[trigger] rows[i]).symbol == (
            #[trigger] rows[j]).symbol implies i == j by {
            if i < earlier.len() && j < earlier.len() {
                assert(earlier[i].symbol == earlier[j].symbol);
            } else if i < earlier.len() {
                let m = choose|m: int|
                    0 <= m < less.len() && (#[trigger] less[m]).symbol@ == earlier[i].symbol;
                assert(hs[m].symbol@ == hs[last].symbol@);
            } else if j < earlier.len() {
                let m = choose|m: int|
                    0 <= m < less.len() && (#[trigger] less[m]).symbol@ == earlier[j].symbol;
                assert(hs[m].symbol@ == hs[last].symbol@);
            }
        }
    }
}

proof fn lemma_watch_rows_distinct<
    F: Fn(Formula) -> Number,
    C: Fn(usize, Option<Number>) -> Option<Crossing>,
>(
    calc: F,
    cross: C,
    q: Question,
    rows: Seq<EntryView>,
    ws: Seq<WatchCandidate>,
    from: int,
)
    requires
        symbols_distinct(rows),
    ensures
        symbols_distinct(watch_rows(calc, cross, q, rows, ws, from)),
    decreases ws.len(),
{
    if ws.len() > 0 {
        lemma_watch_rows_distinct(calc, cross, q, rows, ws.drop_last(), from);
        let earlier = watch_rows(calc, cross, q, rows, ws.drop_last(), from);
        let now = watch_rows(calc, cross, q, rows, ws, from);
        assert forall|i: int, j: int|
            0 <= i < now.len() && 0 <= j < now.len() && (#[trigger] now[i]).symbol == (
            #[trigger] now[j]).symbol implies i == j by {
            if i < earlier.len() && j < earlier.len() {
                assert(earlier[i].symbol == earlier[j].symbol);
            } else if i < earlier.len() {
                assert(earlier[i].symbol == now[i].symbol);
            } else if j < earlier.len() {
                assert(earlier[j].symbol == now[j].symbol);
            }
        }
    }
}

/// No symbol is on a list twice, though it may be held, and watched on several
/// lists.
pub proof fn no_symbol_is_listed_twice<
    F: Fn(Formula) -> Number,
    C: Fn(usize, Option<Number>) -> Option<Crossing>,
>(
    calc: F,
    cross: C,
    def: ListDef,
    hs: Seq<HoldingCandidate>,
    ws: Seq<WatchCandidate>,
)
    requires
        forall|i: int, j: int|
            0 <= i < hs.len() && 0 <= j < hs.len() && (#[trigger] hs[i]).symbol@ == (
            #[trigger] hs[j]).symbol@ ==> i == j,
    ensures
        symbols_distinct(qualifying(calc, cross, def, hs, ws)),
{
    lemma_holding_row_symbols(calc, cross, question_of(def), hs);
    let held = if draws_on(def, "holdings"@) {
        holding_rows(calc, cross, question_of(def), hs)
    } else {
        seq![]
    };
    lemma_watch_rows_distinct(calc, cross, question_of(def), held, ws, hs.len() as int);
}


// ---------------------------------------------------------------------------
// What crossings need
// ---------------------------------------------------------------------------

/// Whether a list is about crossings.
pub open spec fn is_crossing_list(def: ListDef) -> bool {
    crossing_side(def.operator@) is Some
}

/// Whether any list is about crossings of the weekly average.
pub open spec fn crosses_weekly_average(defs: Seq<ListDef>) -> bool {
    exists|i: int|
        0 <= i < defs.len() && is_crossing_list(#[trigger] defs[i]) && has_suffix(
            defs[i].field_key@,
            ":ema40w"@,
        )
}

/// How many days of prices the crossings are looked for in: the weekly average
/// needs years to settle.
pub fn crossing_window(defs: &Vec<ListDef>) -> (r: i64)
    ensures
        r == (if crosses_weekly_average(defs@) {
            3000i64
        } else {
            600i64
        }),
{
    let mut i: usize = 0;
    while i < defs.len()
        invariant
            i <= defs.len(),
            forall|j: int|
                0 <= j < i ==> !(is_crossing_list(#[trigger] defs@[j]) && has_suffix(
                    defs@[j].field_key@,
                    ":ema40w"@,
                )),
        decreases defs.len() - i,
    {
        if crossing_direction(defs[i].operator.as_str()).is_some() && ends_with(
            defs[i].field_key.as_str(),
            ":ema40w",
        ) {
            assert(is_crossing_list(defs@[i as int]));
            return 3000;
        }
        i += 1;
    }
    600
}

/// Whether the symbols of a list come from the table.
pub open spec fn takes_from(def: ListDef, table: Seq<char>) -> bool {
    def.source@ == table || def.source@ == "both"@
}

/// Whether a list about crossings draws on the table.
pub open spec fn crossings_draw_on(defs: Seq<ListDef>, table: Seq<char>) -> bool {
    exists|i: int|
        0 <= i < defs.len() && is_crossing_list(#[trigger] defs[i]) && takes_from(defs[i], table)
}

fn any_crossing_of(defs: &Vec<ListDef>, table: &str) -> (r: bool)
    ensures
        r == crossings_draw_on(defs@, table@),
{
    let mut i: usize = 0;
    while i < defs.len()
        invariant
            i <= defs.len(),
            forall|j: int|
                0 <= j < i ==> !(is_crossing_list(#[trigger] defs@[j]) && takes_from(
                    defs@[j],
                    table@,
                )),
        decreases defs.len() - i,
    {
        let source = defs[i].source.as_str();
        if crossing_direction(defs[i].operator.as_str()).is_some() && (same(source, table) || same(
            source,
            "both",
        )) {
            assert(is_crossing_list(defs@[i as int]));
            return true;
        }
        i += 1;
    }
    false
}

/// The symbols whose prices are looked at for crossings, in order and each once:
/// those held and those watched, as far as a list about crossings draws on them.
/// No prices are read where no list asks for them.
pub fn crossing_symbols(defs: &Vec<ListDef>, held: &Vec<String>, watched: &Vec<String>) -> (r: Vec<
    String,
>)
    ensures
        strictly_ascending(string_views(r@)),
        forall|s: Seq<char>| #[trigger]
            string_views(r@).contains(s) <==> (crossings_draw_on(defs@, "holdings"@)
                && string_views(held@).contains(s)) || (crossings_draw_on(defs@, "watchlist"@)
                && string_views(watched@).contains(s)),
{
    let mut all: Vec<String> = Vec::new();
    let of_held = any_crossing_of(defs, "holdings");
    let of_watched = any_crossing_of(defs, "watchlist");
    if of_held {
        add_all(&mut all, held);
    }
    if of_watched {
        add_all(&mut all, watched);
    }
    let r = distinct_sorted(&all);
    proof {
        let h = string_views(held@);
        let w = string_views(watched@);
        let a = string_views(all@);
        assert forall|s: Seq<char>| #[trigger] string_views(r@).contains(s) <==> (of_held
            && h.contains(s)) || (of_watched && w.contains(s)) by {
            assert(string_views(r@).contains(s) <==> string_views(r@).to_set().contains(s));
            assert(a.contains(s) <==> a.to_set().contains(s));
            if of_held && h.contains(s) {
                let i = choose|i: int| 0 <= i < h.len() && h[i] == s;
                assert(a[i] == s);
            }
            if of_watched && w.contains(s) {
                let i = choose|i: int| 0 <= i < w.len() && w[i] == s;
                assert(a[a.len() - w.len() + i] == s);
            }
            if a.contains(s) {
                let i = choose|i: int| 0 <= i < a.len() && a[i] == s;
                if of_held && i < h.len() {
                    assert(h[i] == s);
                } else {
                    assert(w[i - (a.len() - w.len())] == s);
                }
            }
        }
    }
    r
}

fn add_all(out: &mut Vec<String>, more: &Vec<String>)
    ensures
        string_views(final(out)@) == string_views(old(out)@) + string_views(more@),
{
    let ghost before = string_views(out@);
    let ghost rest = string_views(more@);
    let mut i: usize = 0;
    assert(before =~= before + rest.take(0));
    while i < more.len()
        invariant
            i <= more.len(),
            rest == string_views(more@),
            string_views(out@) == before + rest.take(i as int),
        decreases more.len() - i,
    {
        let ghost now = string_views(out@);
        out.push(more[i].clone());
        assert(string_views(out@) =~= now.push(rest[i as int]));
        assert(rest.take(i + 1) =~= rest.take(i as int).push(rest[i as int]));
        i += 1;
    }
    assert(rest.take(more.len() as int) =~= rest);
}

/// A list about crossings finds its symbols' prices read.
pub proof fn a_crossing_list_has_its_prices(defs: Seq<ListDef>, i: int, table: Seq<char>)
    requires
        0 <= i < defs.len(),
        is_crossing_list(defs[i]),
        takes_from(defs[i], table),
    ensures
        crossings_draw_on(defs, table),
{
}

// ---------------------------------------------------------------------------
// What a list shows
// ---------------------------------------------------------------------------

/// Whether an operator asks for what is over its field.
pub open spec fn asks_for_over(operator: Seq<char>) -> bool {
    operator == "above"@ || operator == "pct_below"@ || operator == "days_above"@ || operator
        == "volume_cross_pct"@
}

/// Whether an operator asks for what is under its field.
pub open spec fn asks_for_under(operator: Seq<char>) -> bool {
    operator == "below"@ || operator == "pct_above"@ || operator == "days_below"@
}

/// Whether an operator asks when the field was crossed.
pub open spec fn asks_for_crossing(operator: Seq<char>) -> bool {
    operator == "days_above"@ || operator == "days_below"@ || operator == "volume_cross_pct"@
}

proof fn lemma_operators_differ()
    ensures
        forall|o: Seq<char>| asks_for_over(o) ==> !asks_for_under(o),
        "above"@ != "below"@,
        !asks_for_crossing("above"@),
        !asks_for_crossing("below"@),
        !asks_for_crossing("pct_above"@),
        !asks_for_crossing("pct_below"@),
        "days_above"@ != "volume_cross_pct"@,
        "days_below"@ != "volume_cross_pct"@,
        "days_above"@ != "days_below"@,
        "pct_above"@ != "days_above"@ && "pct_above"@ != "days_below"@ && "pct_above"@
            != "volume_cross_pct"@,
        "pct_below"@ != "days_above"@ && "pct_below"@ != "days_below"@ && "pct_below"@
            != "volume_cross_pct"@,
        "above"@ != "pct_above"@ && "above"@ != "pct_below"@,
        "below"@ != "pct_above"@ && "below"@ != "pct_below"@,
        "pct_above"@ != "pct_below"@,
{
    reveal_strlit("above");
    reveal_strlit("below");
    reveal_strlit("pct_above");
    reveal_strlit("pct_below");
    reveal_strlit("days_above");
    reveal_strlit("days_below");
    reveal_strlit("volume_cross_pct");
    assert("above"@[0] == 'a' && "below"@[0] == 'b');
    assert("pct_above"@[4] == 'a' && "pct_below"@[4] == 'b');
    assert("days_above"@[5] == 'a' && "days_below"@[5] == 'b');
    assert("above"@.len() == 5 && "below"@.len() == 5);
    assert("pct_above"@.len() == 9 && "pct_below"@.len() == 9);
    assert("days_above"@.len() == 10 && "days_below"@.len() == 10);
    assert("volume_cross_pct"@.len() == 16);
}

/// A row of a list with the operator `above`, `pct_below`, `days_above` or
/// `volume_cross_pct` has its compared value over its field's, and one of a list
/// with `below`, `pct_above` or `days_below` under it. Whatever is on the side
/// asked for has a row, but for the crossings that cannot be dated. An unknown
/// operator has no rows.
pub proof fn a_row_is_on_the_side_asked_for<
    F: Fn(Formula) -> Number,
    C: Fn(usize, Option<Number>) -> Option<Crossing>,
>(calc: F, cross: C, r: Reading, q: Question, n: usize, base: EntryView)
    requires
        is_exact(calc, r),
        r.is_plain(base.compare_value) && r.is_plain(base.field_value),
        r.can(r.of(base.compare_value) - r.of(base.field_value)),
    ensures
        ({
            let row = row_of(calc, cross, q, n, base);
            let value = r.of(base.compare_value);
            let field = r.of(base.field_value);
            &&& asks_for_over(q.operator) && row is Some ==> value > field
            &&& asks_for_under(q.operator) && row is Some ==> value < field
            &&& (q.operator == "above"@ || q.operator == "pct_below"@) && value > field ==> row is Some
            &&& (q.operator == "below"@ || q.operator == "pct_above"@) && value < field ==> row is Some
            &&& !asks_for_over(q.operator) && !asks_for_under(q.operator) ==> row is None
        }),
{
    reveal_with_fuel(exact, 4);
    reveal_with_fuel(unrounded, 4);
    lemma_operators_differ();
    let f = difference(num(base.compare_value), num(base.field_value));
    lemma_exact(calc, r, f);
    lemma_sign(calc, r, worth(calc, f));
}

/// A row tells how far its compared value is from its field's: the one less the
/// other, and that in per cent of the field.
pub proof fn a_row_measures_from_its_field<
    F: Fn(Formula) -> Number,
    C: Fn(usize, Option<Number>) -> Option<Crossing>,
>(calc: F, cross: C, r: Reading, q: Question, n: usize, base: EntryView)
    requires
        is_exact(calc, r),
        row_of(calc, cross, q, n, base) is Some,
        r.is_plain(base.compare_value) && r.is_plain(base.field_value),
        r.of(base.field_value) != 0 as real,
        ({
            let diff = r.of(base.compare_value) - r.of(base.field_value);
            &&& r.can(diff)
            &&& r.can(diff / r.of(base.field_value))
            &&& r.can(diff / r.of(base.field_value) * 100 as real)
        }),
    ensures
        ({
            let row = row_of(calc, cross, q, n, base)->0;
            let diff = r.of(base.compare_value) - r.of(base.field_value);
            &&& r.of(row.diff) == diff
            &&& r.of(row.pct_diff) == diff / r.of(base.field_value) * 100 as real
            &&& row.symbol == base.symbol
            &&& row.price == base.price
            &&& row.compare_value == base.compare_value
            &&& row.field_value == base.field_value
            &&& row.currency == base.currency
            &&& row.is_trailing == base.is_trailing
            &&& row.origin == base.origin
        }),
{
    reveal_with_fuel(exact, 5);
    reveal_with_fuel(unrounded, 5);
    let f = difference(num(base.compare_value), num(base.field_value));
    lemma_exact(calc, r, f);
    lemma_exact(calc, r, percentage(num(worth(calc, f)), num(base.field_value)));
}

/// A row of a list about crossings tells the days since the crossing and the
/// volume behind it, of the level that is stored, or of the derived figure; a row
/// of any other list tells neither.
pub proof fn a_row_dates_its_crossing<
    F: Fn(Formula) -> Number,
    C: Fn(usize, Option<Number>) -> Option<Crossing>,
>(calc: F, cross: C, q: Question, n: usize, base: EntryView)
    requires
        row_of(calc, cross, q, n, base) is Some,
    ensures
        ({
            let row = row_of(calc, cross, q, n, base)->0;
            let found = crossing(
                cross,
                n,
                if q.derived {
                    None
                } else {
                    Some(base.field_value)
                },
            );
            &&& asks_for_crossing(q.operator) ==> found is Some && row.days == Some(found->0.days)
                && row.volume_cross_pct == found->0.volume_pct
            &&& !asks_for_crossing(q.operator) ==> row.days is None && row.volume_cross_pct is None
        }),
{
    lemma_operators_differ();
}

/// A holding is on a list by its price, or by its volume where the list compares
/// volumes, held against the field of the list; one without shares, without a
/// price, without the field, or without the volume asked for is on none.
pub proof fn a_holding_is_listed_by_its_price_and_field<
    F: Fn(Formula) -> Number,
    C: Fn(usize, Option<Number>) -> Option<Crossing>,
>(calc: F, cross: C, q: Question, n: usize, h: HoldingCandidate)
    ensures
        ({
            let row = holding_row(calc, cross, q, n, h);
            let stored = match fields_view(h.fields) {
                Some(m) => if m.contains_key(q.field) {
                    m[q.field].number
                } else {
                    None
                },
                None => None,
            };
            &&& row is Some ==> {
                &&& !h.shares.at_most(Number { bits: 0 })
                &&& h.price == Some(row->0.price)
                &&& row->0.symbol == h.symbol@
                &&& row->0.origin == Origin::Holdings
                &&& row->0.currency == option_view(h.currency)
                &&& !q.by_volume ==> row->0.compare_value == row->0.price
                &&& q.by_volume ==> h.volume is Some && h.volume->0 > 0 && row->0.compare_value
                    == worth(calc, Formula::Whole(h.volume->0))
                &&& row->0.field_value.positive()
                &&& !q.derived && q.field != "stop_loss"@ ==> stored == Some(row->0.field_value)
                    && !row->0.is_trailing
                &&& q.derived ==> h.bars is Some && indicator_of(calc, h.bars->0@, q.field) == Some(
                    row->0.field_value,
                ) && !row->0.is_trailing
                &&& !q.derived && q.field == "stop_loss"@ && h.bars is Some ==> stop_loss_of(
                    calc,
                    fields_view(h.fields),
                    h.bars->0@,
                    h.price,
                    None,
                ) == Some((row->0.field_value, row->0.is_trailing))
            }
            &&& !q.derived && !q.by_volume && q.field != "stop_loss"@ && !h.shares.at_most(
                Number { bits: 0 },
            ) && h.price is Some && stored is Some && stored->0.positive() ==> row == row_of(
                calc,
                cross,
                q,
                n,
                EntryView {
                    symbol: h.symbol@,
                    price: h.price->0,
                    compare_value: h.price->0,
                    field_value: stored->0,
                    diff: stored->0,
                    pct_diff: stored->0,
                    currency: option_view(h.currency),
                    is_trailing: false,
                    origin: Origin::Holdings,
                    days: None,
                    volume_cross_pct: None,
                },
            )
        }),
{
}

/// A watched symbol is on a list by its price, or by its volume where the list
/// compares volumes, held against its breakthrough price, its stop price, a
/// field of its own or a derived figure, as the list says.
pub proof fn a_watched_symbol_is_listed_by_its_price_and_field<
    F: Fn(Formula) -> Number,
    C: Fn(usize, Option<Number>) -> Option<Crossing>,
>(calc: F, cross: C, q: Question, n: usize, w: WatchCandidate)
    ensures
        ({
            let row = watch_row(calc, cross, q, n, w);
            let field = if q.derived {
                match w.bars {
                    Some(b) => indicator_of(calc, b@, q.field),
                    None => None,
                }
            } else if q.field == "breakthrough_price"@ {
                w.breakthrough_price
            } else if q.field == "stop_loss_price"@ {
                w.stop_loss_price
            } else {
                match fields_view(w.fields) {
                    Some(m) => if m.contains_key(q.field) {
                        m[q.field].number
                    } else {
                        None
                    },
                    None => None,
                }
            };
            &&& row is Some ==> {
                &&& w.price == Some(row->0.price)
                &&& row->0.symbol == w.symbol@
                &&& row->0.origin == Origin::Watchlist
                &&& row->0.currency is None
                &&& !row->0.is_trailing
                &&& !q.by_volume ==> row->0.compare_value == row->0.price
                &&& q.by_volume ==> w.volume is Some && w.volume->0 > 0 && row->0.compare_value
                    == worth(calc, Formula::Whole(w.volume->0))
                &&& row->0.field_value.positive()
                &&& field == Some(row->0.field_value)
            }
            &&& !q.by_volume && w.price is Some && field is Some && field->0.positive() ==> row
                == row_of(
                calc,
                cross,
                q,
                n,
                EntryView {
                    symbol: w.symbol@,
                    price: w.price->0,
                    compare_value: w.price->0,
                    field_value: field->0,
                    diff: field->0,
                    pct_diff: field->0,
                    currency: None,
                    is_trailing: false,
                    origin: Origin::Watchlist,
                    days: None,
                    volume_cross_pct: None,
                },
            )
        }),
{
    reveal_strlit("breakthrough_price");
    reveal_strlit("stop_loss_price");
    assert("breakthrough_price"@[0] == 'b' && "stop_loss_price"@[0] == 's');
}

/// Every holding that has a row is among the rows, and every row is that of a
/// holding.
pub proof fn every_holding_with_a_row_is_among_the_rows<
    F: Fn(Formula) -> Number,
    C: Fn(usize, Option<Number>) -> Option<Crossing>,
>(calc: F, cross: C, q: Question, hs: Seq<HoldingCandidate>)
    requires
        hs.len() <= usize::MAX,
    ensures
        forall|i: int|
            0 <= i < hs.len() && (#[trigger] holding_row(calc, cross, q, i as usize, hs[i])) is Some
                ==> holding_rows(calc, cross, q, hs).contains(
                holding_row(calc, cross, q, i as usize, hs[i])->0,
            ),
        forall|k: int|
            0 <= k < holding_rows(calc, cross, q, hs).len() ==> exists|i: int|
                0 <= i < hs.len() && #[trigger] holding_row(calc, cross, q, i as usize, hs[i])
                    == Some(#[trigger] holding_rows(calc, cross, q, hs)[k]),
    decreases hs.len(),
{
    if hs.len() > 0 {
        let less = hs.drop_last();
        let m = less.len() as int;
        every_holding_with_a_row_is_among_the_rows(calc, cross, q, less);
        let before = holding_rows(calc, cross, q, less);
        let now = holding_rows(calc, cross, q, hs);
        let last = holding_row(calc, cross, q, m as usize, hs.last());
        assert forall|i: int|
            0 <= i < hs.len() && (#[trigger] holding_row(calc, cross, q, i as usize, hs[i])) is Some implies now.contains(
            holding_row(calc, cross, q, i as usize, hs[i])->0,
        ) by {
            if i < m {
                assert(less[i] == hs[i]);
                let e = holding_row(calc, cross, q, i as usize, less[i])->0;
                assert(before.contains(e));
                let k = choose|k: int| 0 <= k < before.len() && before[k] == e;
                assert(now[k] == e);
            } else {
                assert(now[before.len() as int] == last->0);
            }
        }
        assert forall|k: int| 0 <= k < now.len() implies exists|i: int|
            0 <= i < hs.len() && #[trigger] holding_row(calc, cross, q, i as usize, hs[i]) == Some(
                #[trigger] now[k],
            ) by {
            if k < before.len() {
                assert(before[k] == now[k]);
                let i = choose|i: int|
                    0 <= i < less.len() && #[trigger] holding_row(
                        calc,
                        cross,
                        q,
                        i as usize,
                        less[i],
                    ) == Some(before[k]);
                assert(less[i] == hs[i]);
                assert(holding_row(calc, cross, q, i as usize, hs[i]) == Some(now[k]));
            } else {
                assert(holding_row(calc, cross, q, m as usize, hs[m]) == Some(now[k]));
            }
        }
    }
}

/// Every watched symbol that has a row is on the list, and every row that the
/// watched symbols add is that of one of them. The rows of the holdings stay.
pub proof fn every_watched_symbol_with_a_row_is_on_the_list<
    F: Fn(Formula) -> Number,
    C: Fn(usize, Option<Number>) -> Option<Crossing>,
>(
    calc: F,
    cross: C,
    q: Question,
    rows: Seq<EntryView>,
    ws: Seq<WatchCandidate>,
    from: int,
)
    requires
        0 <= from,
        from + ws.len() <= usize::MAX,
    ensures
        ({
            let all = watch_rows(calc, cross, q, rows, ws, from);
            &&& rows.len() <= all.len()
            &&& forall|k: int| 0 <= k < rows.len() ==> #[trigger] all[k] == rows[k]
            &&& forall|i: int|
                0 <= i < ws.len() && (#[trigger] watch_row(
                    calc,
                    cross,
                    q,
                    (from + i) as usize,
                    ws[i],
                )) is Some ==> listed(all, ws[i].symbol@)
            &&& forall|k: int|
                rows.len() <= k < all.len() ==> exists|i: int|
                    0 <= i < ws.len() && #[trigger] watch_row(
                        calc,
                        cross,
                        q,
                        (from + i) as usize,
                        ws[i],
                    ) == Some(#[trigger] all[k])
        }),
    decreases ws.len(),
{
    if ws.len() > 0 {
        let less = ws.drop_last();
        let m = less.len() as int;
        every_watched_symbol_with_a_row_is_on_the_list(calc, cross, q, rows, less, from);
        let before = watch_rows(calc, cross, q, rows, less, from);
        let now = watch_rows(calc, cross, q, rows, ws, from);
        let last = watch_row(calc, cross, q, (from + m) as usize, ws.last());
        assert(ws[m] == ws.last());
        assert forall|s: Seq<char>| #[trigger] listed(before, s) implies listed(now, s) by {
            let k = choose|k: int| 0 <= k < before.len() && (#[trigger] before[k]).symbol == s;
            assert(now[k].symbol == s);
        }
        assert forall|i: int|
            0 <= i < ws.len() && (#[trigger] watch_row(
                calc,
                cross,
                q,
                (from + i) as usize,
                ws[i],
            )) is Some implies listed(now, ws[i].symbol@) by {
            if i < m {
                assert(less[i] == ws[i]);
                assert(watch_row(calc, cross, q, (from + i) as usize, less[i]) is Some);
                assert(listed(before, ws[i].symbol@));
            } else if !listed(before, ws[i].symbol@) {
                a_watched_symbol_is_listed_by_its_price_and_field(
                    calc,
                    cross,
                    q,
                    (from + m) as usize,
                    ws.last(),
                );
                assert(now[before.len() as int] == last->0);
                assert(now[before.len() as int].symbol == ws[i].symbol@);
            }
        }
        assert forall|k: int| rows.len() <= k < now.len() implies exists|i: int|
            0 <= i < ws.len() && #[trigger] watch_row(calc, cross, q, (from + i) as usize, ws[i])
                == Some(#[trigger] now[k]) by {
            if k < before.len() {
                assert(before[k] == now[k]);
                let i = choose|i: int|
                    0 <= i < less.len() && #[trigger] watch_row(
                        calc,
                        cross,
                        q,
                        (from + i) as usize,
                        less[i],
                    ) == Some(before[k]);
                assert(less[i] == ws[i]);
                assert(watch_row(calc, cross, q, (from + i) as usize, ws[i]) == Some(now[k]));
            } else {
                assert(watch_row(calc, cross, q, (from + m) as usize, ws[m]) == Some(now[k]));
            }
        }
    }
}

/// A list takes its symbols from the tables that its source names: the holdings,
/// the watchlist, or with `both` from either. Where its field lives in one of the
/// tables, it takes them from that one alone; a derived figure exists in each.
pub proof fn a_list_takes_its_symbols_from_its_source<
    F: Fn(Formula) -> Number,
    C: Fn(usize, Option<Number>) -> Option<Crossing>,
>(
    calc: F,
    cross: C,
    def: ListDef,
    hs: Seq<HoldingCandidate>,
    ws: Seq<WatchCandidate>,
    table: Seq<char>,
    field: Seq<char>,
)
    requires
        split_once_text(def.field_key@, ':') == Some((table, field)),
    ensures
        ({
            let q = question_of(def);
            let of_holdings = (def.source@ == "holdings"@ || def.source@ == "both"@) && (table
                == "indicator"@ || table == "holdings"@);
            let of_watchlist = (def.source@ == "watchlist"@ || def.source@ == "both"@) && (table
                == "indicator"@ || table == "watchlist"@);
            let held = holding_rows(calc, cross, q, hs);
            let all = qualifying(calc, cross, def, hs, ws);
            &&& q.field == field
            &&& q.operator == def.operator@
            &&& q.derived == (table == "indicator"@)
            &&& q.by_volume == (def.compare is Some && def.compare->0@ == "volume"@)
            &&& !of_holdings && !of_watchlist ==> all.len() == 0
            &&& of_holdings && !of_watchlist ==> all == held
            &&& !of_holdings && of_watchlist ==> all == watch_rows(
                calc,
                cross,
                q,
                seq![],
                ws,
                hs.len() as int,
            )
            &&& of_holdings && of_watchlist ==> all == watch_rows(
                calc,
                cross,
                q,
                held,
                ws,
                hs.len() as int,
            )
        }),
{
}

/// Of two rows of a list, that which comes first has the smaller figure, or with
/// `desc` the larger one: the days since the crossing with `days_above` and
/// `days_below`, the volume behind it with `volume_cross_pct`, the distance in per
/// cent without its sign with `pct_above` and `pct_below`, and the distance in per
/// cent with any other operator.
pub proof fn rows_come_in_the_order_of_their_figures<
    F: Fn(Formula) -> Number,
    C: Fn(usize, Option<Number>) -> Option<Crossing>,
>(
    calc: F,
    cross: C,
    l: CustomList,
    def: ListDef,
    asked: Option<Seq<char>>,
    hs: Seq<HoldingCandidate>,
    ws: Seq<WatchCandidate>,
    holding_defs: Seq<FieldDef>,
    watch_defs: Seq<FieldDef>,
    i: int,
    j: int,
)
    requires
        is_custom_list(calc, cross, l, def, asked, hs, ws, holding_defs, watch_defs),
        0 <= i < j < l.entries@.len(),
    ensures
        ({
            let a = l.entries@[i]@;
            let b = l.entries@[j]@;
            let descending = match asked {
                Some(d) => d == "desc"@,
                None => def.sort is Some && def.sort->0@ == "desc"@,
            };
            let o = def.operator@;
            &&& (o == "days_above"@ || o == "days_below"@) && a.days is Some && b.days is Some ==> (
            if descending {
                a.days->0 >= b.days->0
            } else {
                a.days->0 <= b.days->0
            })
            &&& o == "volume_cross_pct"@ && a.volume_cross_pct is Some && b.volume_cross_pct is Some
                ==> (if descending {
                !a.volume_cross_pct->0.below(b.volume_cross_pct->0)
            } else {
                !b.volume_cross_pct->0.below(a.volume_cross_pct->0)
            })
            &&& o == "pct_above"@ || o == "pct_below"@ ==> (if descending {
                !a.pct_diff.absolute().below(b.pct_diff.absolute())
            } else {
                !b.pct_diff.absolute().below(a.pct_diff.absolute())
            })
            &&& o == "above"@ || o == "below"@ ==> (if descending {
                !a.pct_diff.below(b.pct_diff)
            } else {
                !b.pct_diff.below(a.pct_diff)
            })
        }),
{
    lemma_operators_differ();
    let all = qualifying(calc, cross, def, hs, ws);
    let metric = metric_of(def.operator@);
    let descending = direction(def, asked) == Some("desc"@);
    let shown = entry_views(l.entries@);
    assert(is_shown(shown, all, metric, descending, limit_of(def)));
    let order = choose|order: Seq<int>| #[trigger]
        is_top(order, ranks_of(all, metric), descending, limit_of(def)) && shown == picked(
            all,
            order,
        );
    assert(shown.len() == order.len());
    assert(shown[i] == l.entries@[i]@ && shown[j] == l.entries@[j]@);
    assert(shown_before(ranks_of(all, metric), descending, order[i], order[j]));
    assert(ranks_of(all, metric)[order[i]] == rank_of(shown[i], metric));
    assert(ranks_of(all, metric)[order[j]] == rank_of(shown[j], metric));
}

/// A list shows as many rows as qualify, but no more than its length, which is
/// fifteen where it is not set; it tells whether any were cut, how it is sorted
/// and what it compares. All rows shown qualify.
pub proof fn a_list_is_cut_to_its_length<
    F: Fn(Formula) -> Number,
    C: Fn(usize, Option<Number>) -> Option<Crossing>,
>(
    calc: F,
    cross: C,
    l: CustomList,
    def: ListDef,
    asked: Option<Seq<char>>,
    hs: Seq<HoldingCandidate>,
    ws: Seq<WatchCandidate>,
    holding_defs: Seq<FieldDef>,
    watch_defs: Seq<FieldDef>,
)
    requires
        is_custom_list(calc, cross, l, def, asked, hs, ws, holding_defs, watch_defs),
    ensures
        ({
            let all = qualifying(calc, cross, def, hs, ws);
            let limit = match def.limit {
                Some(n) => n as int,
                None => 15,
            };
            &&& l.entries@.len() == (if all.len() <= limit {
                all.len() as int
            } else {
                limit
            })
            &&& l.truncated <==> l.entries@.len() < all.len()
            &&& forall|i: int| 0 <= i < l.entries@.len() ==> all.contains((#[trigger] l.entries@[i])@)
            &&& asked is Some ==> l.sort@ == asked->0
            &&& asked is None && def.sort is Some ==> l.sort@ == def.sort->0@
            &&& asked is None && def.sort is None ==> l.sort@ == "asc"@
            &&& l.by_volume <==> def.compare is Some && def.compare->0@ == "volume"@
            &&& def.operator@ == "days_above"@ || def.operator@ == "days_below"@
                ==> l.metric.text() == "days"@
            &&& def.operator@ == "volume_cross_pct"@ ==> l.metric.text() == "volume_cross_pct"@
            &&& !asks_for_crossing(def.operator@) ==> l.metric.text() == "pct_diff"@
        }),
{
    lemma_operators_differ();
    let all = qualifying(calc, cross, def, hs, ws);
    let metric = metric_of(def.operator@);
    let descending = direction(def, asked) == Some("desc"@);
    let shown = entry_views(l.entries@);
    assert(is_shown(shown, all, metric, descending, limit_of(def)));
    let order = choose|order: Seq<int>| #[trigger]
        is_top(order, ranks_of(all, metric), descending, limit_of(def)) && shown == picked(
            all,
            order,
        );
    assert(shown.len() == order.len());
    assert forall|i: int| 0 <= i < l.entries@.len() implies all.contains(
        (#[trigger] l.entries@[i])@,
    ) by {
        assert(shown[i] == l.entries@[i]@);
        assert(0 <= order[i] < all.len());
        assert(all[order[i]] == shown[i]);
    }
}

/// A field is shown under the label of its first definition, a built-in one
/// without a definition under its own, and any other under its key.
pub proof fn a_field_is_shown_under_its_label(defs: Seq<FieldDef>, key: Seq<char>)
    ensures
        forall|i: int|
            0 <= i < defs.len() && (#[trigger] defs[i]).key@ == key && (forall|j: int|
                0 <= j < i ==> (#[trigger] defs[j]).key@ != key) ==> label_of(defs, key)
                == defs[i].label@,
        (forall|i: int| 0 <= i < defs.len() ==> (#[trigger] defs[i]).key@ != key) ==> {
            &&& key == "sma50"@ ==> label_of(defs, key) == "50-Day SMA"@
            &&& key == "sma150"@ ==> label_of(defs, key) == "150-Day SMA"@
            &&& key == "ema40w"@ ==> label_of(defs, key) == "40-Week EMA"@
            &&& key == "breakthrough_price"@ ==> label_of(defs, key) == "Breakthrough Price"@
            &&& key == "stop_loss_price"@ ==> label_of(defs, key) == "Stop Loss Price"@
            &&& key == "stop_loss"@ ==> label_of(defs, key) == "Stop Loss Price"@
            &&& key == "trailing_sell_pct"@ ==> label_of(defs, key) == "Trailing Sell %"@
            &&& key != "sma50"@ && key != "sma150"@ && key != "ema40w"@ && key
                != "breakthrough_price"@ && key != "stop_loss_price"@ && key != "stop_loss"@ && key
                != "trailing_sell_pct"@ ==> label_of(defs, key) == key
        },
{
    reveal_strlit("sma50");
    reveal_strlit("sma150");
    reveal_strlit("ema40w");
    reveal_strlit("breakthrough_price");
    reveal_strlit("stop_loss_price");
    reveal_strlit("stop_loss");
    reveal_strlit("trailing_sell_pct");
    assert("sma50"@.len() == 5 && "sma150"@.len() == 6 && "ema40w"@.len() == 6);
    assert("sma150"@[0] == 's' && "ema40w"@[0] == 'e');
    assert("breakthrough_price"@.len() == 18 && "stop_loss_price"@.len() == 15);
    assert("stop_loss"@.len() == 9 && "trailing_sell_pct"@.len() == 17);
    lemma_defined_label(defs, key, 0);
}

proof fn lemma_defined_label(defs: Seq<FieldDef>, key: Seq<char>, from: int)
    requires
        0 <= from <= defs.len(),
    ensures
        forall|i: int|
            from <= i < defs.len() && (#[trigger] defs[i]).key@ == key && (forall|j: int|
                from <= j < i ==> (#[trigger] defs[j]).key@ != key) ==> defined_label(
                defs,
                key,
                from,
            ) == Some(defs[i].label@),
        (forall|i: int| from <= i < defs.len() ==> (#[trigger] defs[i]).key@ != key)
            ==> defined_label(defs, key, from) is None,
    decreases defs.len() - from,
{
    if from < defs.len() {
        lemma_defined_label(defs, key, from + 1);
        assert forall|i: int|
            from <= i < defs.len() && (#[trigger] defs[i]).key@ == key && (forall|j: int|
                from <= j < i ==> (#[trigger] defs[j]).key@ != key) implies defined_label(
            defs,
            key,
            from,
        ) == Some(defs[i].label@) by {
            if defs[from].key@ == key {
                assert(i == from);
            } else {
                assert(i >= from + 1);
            }
        }
    }
}

/// What ties keeps its order, in either direction.
pub proof fn ties_keep_their_order(
    order: Seq<int>,
    ranks: Seq<Option<int>>,
    descending: bool,
    limit: int,
    i: int,
    j: int,
)
    requires
        is_top(order, ranks, descending, limit),
        0 <= i < j < order.len(),
        ranks[order[i]] == ranks[order[j]],
    ensures
        order[i] < order[j],
{
    assert(shown_before(ranks, descending, order[i], order[j]));
}

/// The crossings of a table are looked for where a list asks for one and takes its
/// symbols from that table or from both, and only there.
pub proof fn crossings_are_looked_for_where_a_list_asks(
    defs: Seq<ListDef>,
    def: ListDef,
    table: Seq<char>,
)
    ensures
        !crossings_draw_on(Seq::empty(), table),
        crossings_draw_on(defs.push(def), table) <==> crossings_draw_on(defs, table) || (
        asks_for_crossing(def.operator@) && (def.source@ == table || def.source@ == "both"@)),
        !crosses_weekly_average(Seq::empty()),
        crosses_weekly_average(defs.push(def)) <==> crosses_weekly_average(defs) || (
        asks_for_crossing(def.operator@) && has_suffix(def.field_key@, ":ema40w"@)),
{
    let more = defs.push(def);
    let n = defs.len() as int;
    assert(more[n] == def);
    assert forall|i: int| 0 <= i < n implies #[trigger] more[i] == defs[i] by {}
    if crossings_draw_on(defs, table) {
        let i = choose|i: int|
            0 <= i < defs.len() && is_crossing_list(#[trigger] defs[i]) && takes_from(
                defs[i],
                table,
            );
        assert(is_crossing_list(more[i]) && takes_from(more[i], table));
    }
    if crossings_draw_on(more, table) {
        let i = choose|i: int|
            0 <= i < more.len() && is_crossing_list(#[trigger] more[i]) && takes_from(
                more[i],
                table,
            );
        if i < n {
            assert(is_crossing_list(defs[i]) && takes_from(defs[i], table));
        }
    }
    if crosses_weekly_average(defs) {
        let i = choose|i: int|
            0 <= i < defs.len() && is_crossing_list(#[trigger] defs[i]) && has_suffix(
                defs[i].field_key@,
                ":ema40w"@,
            );
        assert(is_crossing_list(more[i]));
    }
    if crosses_weekly_average(more) {
        let i = choose|i: int|
            0 <= i < more.len() && is_crossing_list(#[trigger] more[i]) && has_suffix(
                more[i].field_key@,
                ":ema40w"@,
            );
        if i < n {
            assert(is_crossing_list(defs[i]));
        }
    }
    if is_crossing_list(def) && takes_from(def, table) {
        assert(is_crossing_list(more[n]) && takes_from(more[n], table));
    }
    if is_crossing_list(def) {
        assert(is_crossing_list(more[n]));
    }
}

} // verus!
