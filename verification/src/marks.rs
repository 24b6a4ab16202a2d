//! What the settings say of single symbols: that one no longer trades, or what
//! it is worth where the market does not say.
use vstd::prelude::*;
use crate::config::dead_symbol_prefix;
use crate::fields::Field;
use crate::number::Number;
use crate::order::{distinct_sorted, strictly_ascending};
use crate::settings::{item_views, ConfigItem};
use crate::text::{
    after, ascii_upper, chars_of, has_prefix, is_blank, same, string_views, strip_prefix, trim_text,
    trimmed, upper_ascii_char,
};
use crate::textmap::TextMap;

verus! {

broadcast use vstd::string::group_string_axioms;

/// A text after a prefix is what the prefix was put before.
pub proof fn lemma_prefixed(key: Seq<char>, prefix: Seq<char>, name: Seq<char>)
    ensures
        key == prefix + name <==> has_prefix(key, prefix) && after(key, prefix.len() as int)
            == name,
{
    if key == prefix + name {
        assert(key.subrange(0, prefix.len() as int) =~= prefix);
        assert(after(key, prefix.len() as int) =~= name);
    }
    if has_prefix(key, prefix) && after(key, prefix.len() as int) == name {
        assert(key =~= key.subrange(0, prefix.len() as int) + after(key, prefix.len() as int));
    }
}

/// The last day on which a symbol traded, where it is marked as trading no
/// more. A blank mark is a cleared one.
pub open spec fn dead_since(items: Seq<(Seq<char>, Seq<char>)>, symbol: Seq<char>) -> Option<
    Seq<char>,
>
    decreases items.len(),
{
    if items.len() == 0 {
        None
    } else if items.last().0 == dead_symbol_prefix() + symbol && !is_blank(items.last().1) {
        Some(trim_text(items.last().1))
    } else {
        dead_since(items.drop_last(), symbol)
    }
}

/// Whether a map holds the marks that some settings make.
pub open spec fn holds_marks(map: Map<Seq<char>, String>, items: Seq<(Seq<char>, Seq<char>)>) -> bool {
    forall|s: Seq<char>|
        #![trigger map.contains_key(s)]
        #![trigger dead_since(items, s)]
        match dead_since(items, s) {
            Some(date) => map.contains_key(s) && map[s]@ == date,
            None => !map.contains_key(s),
        }
}

/// One more setting marks at most the symbol that its key names.
proof fn lemma_one_more_mark(
    items: Seq<(Seq<char>, Seq<char>)>,
    item: (Seq<char>, Seq<char>),
    before: Map<Seq<char>, String>,
    now: Map<Seq<char>, String>,
)
    requires
        holds_marks(before, items),
        if has_prefix(item.0, dead_symbol_prefix()) && !is_blank(item.1) {
            exists|date: String| #[trigger]
                date@ == trim_text(item.1) && now == before.insert(
                    after(item.0, dead_symbol_prefix().len() as int),
                    date,
                )
        } else {
            now == before
        },
    ensures
        holds_marks(now, items.push(item)),
{
    let more = items.push(item);
    assert(more.drop_last() =~= items);
    assert forall|s: Seq<char>|
        #![trigger now.contains_key(s)]
        #![trigger dead_since(more, s)]
        match dead_since(more, s) {
            Some(date) => now.contains_key(s) && now[s]@ == date,
            None => !now.contains_key(s),
        } by {
        lemma_prefixed(item.0, dead_symbol_prefix(), s);
        assert(before.contains_key(s) == dead_since(items, s) is Some);
    }
}

/// The symbols marked as trading no more, with the last day of each.
pub fn dead_symbols(items: &Vec<ConfigItem>) -> (r: TextMap<String>)
    ensures
        holds_marks(r@, item_views(items@)),
{
    let ghost all = item_views(items@);
    let mut out: TextMap<String> = TextMap::new();
    let mut i: usize = 0;
    while i < items.len()
        invariant
            i <= items.len(),
            all == item_views(items@),
            holds_marks(out@, all.take(i as int)),
        decreases items.len() - i,
    {
        let ghost before = out@;
        let item = &items[i];
        assert(all.take(i + 1) =~= all.take(i as int).push(item@));
        match strip_prefix(item.key.as_str(), "dead_symbol_") {
            Some(symbol) => {
                let date = trimmed(item.value.as_str());
                if !date.is_empty() {
                    let kept = date.to_owned();
                    out.insert(symbol.to_owned(), kept);
                    assert(kept@ == trim_text(item.value@));
                }
            },
            None => {},
        }
        proof {
            lemma_one_more_mark(all.take(i as int), item@, before, out@);
        }
        i += 1;
    }
    assert(all.take(items.len() as int) =~= all);
    out
}

/// What precedes the symbol in the key of a price entered by hand.
pub open spec fn manual_price_prefix() -> Seq<char> {
    "manual_price_"@
}

/// The price entered by hand for a symbol, where it is a positive number.
pub open spec fn manual_price_of(items: Seq<(String, Field)>, symbol: Seq<char>) -> Option<Number>
    decreases items.len(),
{
    if items.len() == 0 {
        None
    } else if items.last().0@ == manual_price_prefix() + symbol
        && items.last().1.trimmed_number is Some && items.last().1.trimmed_number->0.positive() {
        items.last().1.trimmed_number
    } else {
        manual_price_of(items.drop_last(), symbol)
    }
}

/// Whether a map holds the prices that some settings enter by hand.
pub open spec fn holds_manual_prices(
    map: Map<Seq<char>, Number>,
    items: Seq<(String, Field)>,
) -> bool {
    forall|s: Seq<char>|
        #![trigger map.contains_key(s)]
        #![trigger manual_price_of(items, s)]
        match manual_price_of(items, s) {
            Some(p) => map.contains_key(s) && map[s] == p,
            None => !map.contains_key(s),
        }
}

/// One more setting prices at most the symbol that its key names.
proof fn lemma_one_more_price(
    items: Seq<(String, Field)>,
    item: (String, Field),
    before: Map<Seq<char>, Number>,
    now: Map<Seq<char>, Number>,
)
    requires
        holds_manual_prices(before, items),
        now == (if has_prefix(item.0@, manual_price_prefix()) && item.1.trimmed_number is Some
            && item.1.trimmed_number->0.positive() {
            before.insert(
                after(item.0@, manual_price_prefix().len() as int),
                item.1.trimmed_number->0,
            )
        } else {
            before
        }),
    ensures
        holds_manual_prices(now, items.push(item)),
{
    let more = items.push(item);
    assert(more.drop_last() =~= items);
    assert forall|s: Seq<char>|
        #![trigger now.contains_key(s)]
        #![trigger manual_price_of(more, s)]
        match manual_price_of(more, s) {
            Some(p) => now.contains_key(s) && now[s] == p,
            None => !now.contains_key(s),
        } by {
        lemma_prefixed(item.0@, manual_price_prefix(), s);
        assert(before.contains_key(s) == manual_price_of(items, s) is Some);
    }
}

/// The prices entered by hand, by symbol. They value what the market prices no
/// more: its last close would otherwise stand for ever.
pub fn manual_prices(items: &Vec<(String, Field)>) -> (r: TextMap<Number>)
    ensures
        holds_manual_prices(r@, items@),
{
    let mut out: TextMap<Number> = TextMap::new();
    let mut i: usize = 0;
    while i < items.len()
        invariant
            i <= items.len(),
            holds_manual_prices(out@, items@.take(i as int)),
        decreases items.len() - i,
    {
        let ghost before = out@;
        let item = &items[i];
        assert(items@.take(i + 1) =~= items@.take(i as int).push(*item));
        match strip_prefix(item.0.as_str(), "manual_price_") {
            Some(symbol) => {
                match item.1.trimmed_number {
                    Some(p) => {
                        if p.is_positive() {
                            out.insert(symbol.to_owned(), p);
                        }
                    },
                    None => {},
                }
            },
            None => {},
        }
        proof {
            lemma_one_more_price(items@.take(i as int), *item, before, out@);
        }
        i += 1;
    }
    assert(items@.take(items.len() as int) =~= items@);
    out
}

// ---------------------------------------------------------------------------
// The currencies whose rates are kept
// ---------------------------------------------------------------------------

/// `s` without the spaces at its start.
pub open spec fn without_leading_spaces(s: Seq<char>) -> Seq<char>
    decreases s.len(),
{
    if s.len() > 0 && s.first() == ' ' {
        without_leading_spaces(s.drop_first())
    } else {
        s
    }
}

/// `s` without the spaces at its end.
pub open spec fn without_trailing_spaces(s: Seq<char>) -> Seq<char>
    decreases s.len(),
{
    if s.len() > 0 && s.last() == ' ' {
        without_trailing_spaces(s.drop_last())
    } else {
        s
    }
}

/// A currency as the store compares it: without spaces round it, its ASCII
/// letters in upper case.
pub open spec fn stored_currency(s: Seq<char>) -> Seq<char> {
    without_trailing_spaces(without_leading_spaces(s)).map_values(|c: char| ascii_upper(c))
}

/// Whether a rate has to be kept for `currency`: it is used by a symbol or a
/// trade, and it is not the base currency.
pub open spec fn needs_rate(used: Seq<Seq<char>>, currency: Seq<char>) -> bool {
    &&& currency.len() > 0
    &&& currency != "AUD"@
    &&& exists|i: int| 0 <= i < used.len() && stored_currency(#[trigger] used[i]) == currency
}

proof fn lemma_leading(s: Seq<char>, n: int)
    requires
        0 <= n <= s.len(),
        forall|i: int| 0 <= i < n ==> s[i] == ' ',
        n < s.len() ==> s[n] != ' ',
    ensures
        without_leading_spaces(s) == after(s, n),
    decreases n,
{
    if n > 0 {
        lemma_leading(s.drop_first(), n - 1);
        assert(after(s.drop_first(), n - 1) =~= after(s, n));
    } else {
        assert(after(s, 0) =~= s);
    }
}

proof fn lemma_trailing(s: Seq<char>, n: int)
    requires
        0 <= n <= s.len(),
        forall|i: int| n <= i < s.len() ==> s[i] == ' ',
        n > 0 ==> s[n - 1] != ' ',
    ensures
        without_trailing_spaces(s) == s.subrange(0, n),
    decreases s.len() - n,
{
    if n < s.len() {
        lemma_trailing(s.drop_last(), n);
        assert(s.drop_last().subrange(0, n) =~= s.subrange(0, n));
    } else {
        assert(s.subrange(0, n) =~= s);
    }
}

/// A currency as the store compares it.
fn normal_currency(s: &str) -> (r: String)
    ensures
        r@ == stored_currency(s@),
{
    let cs = chars_of(s);
    let mut from: usize = 0;
    while from < cs.len() && cs[from] == ' '
        invariant
            cs@ == s@,
            from <= cs.len(),
            forall|i: int| 0 <= i < from ==> cs@[i] == ' ',
        decreases cs.len() - from,
    {
        from += 1;
    }
    let mut to: usize = cs.len();
    while from < to && cs[to - 1] == ' '
        invariant
            cs@ == s@,
            from <= to <= cs.len(),
            forall|i: int| to <= i < cs.len() ==> cs@[i] == ' ',
        decreases to,
    {
        to -= 1;
    }
    let ghost t = after(s@, from as int);
    let ghost core = s@.subrange(from as int, to as int);
    proof {
        lemma_leading(s@, from as int);
        lemma_trailing(t, to - from);
        assert(t.subrange(0, to - from) =~= core);
    }
    let mut out = String::new();
    let mut k: usize = from;
    assert(out@ =~= seq![]);
    while k < to
        invariant
            cs@ == s@,
            from <= k <= to <= cs.len(),
            core == s@.subrange(from as int, to as int),
            out@ == core.map_values(|c: char| ascii_upper(c)).take(k - from),
        decreases to - k,
    {
        let ghost before = out@;
        out.push(upper_ascii_char(cs[k]));
        k += 1;
        assert(out@ =~= core.map_values(|c: char| ascii_upper(c)).take(k - from));
    }
    assert(out@ =~= core.map_values(|c: char| ascii_upper(c)));
    out
}

/// The currencies whose rates are kept, in order: those that a symbol or a
/// trade uses, without the base currency. `used` are the currencies of all
/// symbols and trades that have one.
pub fn fx_currencies_in_use(used: &Vec<String>) -> (r: Vec<String>)
    ensures
        strictly_ascending(string_views(r@)),
        forall|c: Seq<char>| #[trigger]
            string_views(r@).contains(c) <==> needs_rate(string_views(used@), c),
{
    let mut found: Vec<String> = Vec::new();
    let ghost all = string_views(used@);
    let mut i: usize = 0;
    while i < used.len()
        invariant
            i <= used.len(),
            all == string_views(used@),
            forall|j: int| 0 <= j < found@.len() ==> needs_rate(all, (#[trigger] found@[j])@),
            forall|j: int|
                0 <= j < i && stored_currency(#[trigger] all[j]).len() > 0 && stored_currency(
                    all[j],
                ) != "AUD"@ ==> string_views(found@).contains(stored_currency(all[j])),
        decreases used.len() - i,
    {
        let c = normal_currency(used[i].as_str());
        let ghost before = found@;
        assert(all[i as int] == used@[i as int]@);
        if !c.as_str().is_empty() && !same(c.as_str(), "AUD") {
            assert(needs_rate(all, c@)) by {
                assert(stored_currency(all[i as int]) == c@);
            }
            found.push(c);
            proof {
                assert forall|t: Seq<char>| string_views(before).contains(t) implies string_views(
                    found@,
                ).contains(t) by {
                    let k = choose|k: int|
                        0 <= k < string_views(before).len() && string_views(before)[k] == t;
                    assert(string_views(found@)[k] == t);
                }
                assert(string_views(found@)[before.len() as int] == c@);
            }
        }
        i += 1;
    }
    let r = distinct_sorted(&found);
    proof {
        assert forall|c: Seq<char>| #[trigger]
            string_views(r@).contains(c) <==> needs_rate(all, c) by {
            assert(string_views(r@).contains(c) <==> string_views(r@).to_set().contains(c));
            assert(string_views(found@).contains(c) <==> string_views(found@).to_set().contains(
                c,
            ));
            if string_views(found@).contains(c) {
                let k = choose|k: int|
                    0 <= k < string_views(found@).len() && string_views(found@)[k] == c;
                assert(found@[k]@ == c);
            }
            if needs_rate(all, c) {
                let j = choose|j: int|
                    0 <= j < all.len() && stored_currency(#[trigger] all[j]) == c;
                assert(string_views(found@).contains(stored_currency(all[j])));
            }
        }
    }
    r
}

/// A symbol is dead where a setting marks it with a day; the last such setting
/// counts, a blank one marks nothing, and one of another key does not matter.
pub proof fn the_last_mark_counts(
    items: Seq<(Seq<char>, Seq<char>)>,
    item: (Seq<char>, Seq<char>),
    symbol: Seq<char>,
)
    ensures
        item.0 == "dead_symbol_"@ + symbol && trim_text(item.1).len() > 0 ==> dead_since(
            items.push(item),
            symbol,
        ) == Some(trim_text(item.1)),
        item.0 != "dead_symbol_"@ + symbol || trim_text(item.1).len() == 0 ==> dead_since(
            items.push(item),
            symbol,
        ) == dead_since(items, symbol),
        dead_since(Seq::empty(), symbol) is None,
{
    assert(items.push(item).drop_last() =~= items);
}

/// A price entered by hand counts where it is positive; the last one does.
pub proof fn the_last_price_by_hand_counts(
    items: Seq<(String, Field)>,
    item: (String, Field),
    symbol: Seq<char>,
)
    ensures
        ({
            let priced = item.0@ == "manual_price_"@ + symbol && item.1.trimmed_number is Some
                && !item.1.trimmed_number->0.is_nan() && item.1.trimmed_number->0.key() > 0;
            &&& priced ==> manual_price_of(items.push(item), symbol) == item.1.trimmed_number
            &&& !priced ==> manual_price_of(items.push(item), symbol) == manual_price_of(
                items,
                symbol,
            )
        }),
{
    assert(items.push(item).drop_last() =~= items);
}

/// A rate is needed of every currency in use but the base and the empty one.
pub proof fn which_rates_are_needed(used: Seq<Seq<char>>, currency: Seq<char>)
    ensures
        needs_rate(used, currency) <==> currency.len() > 0 && currency != "AUD"@ && exists|i: int|
            0 <= i < used.len() && stored_currency(#[trigger] used[i]) == currency,
{
}

/// What is loaded are the marks and the prices of each symbol, and of no other.
pub proof fn what_is_loaded_of_a_symbol(
    dead: Map<Seq<char>, String>,
    items: Seq<(Seq<char>, Seq<char>)>,
    prices: Map<Seq<char>, Number>,
    fields: Seq<(String, Field)>,
    symbol: Seq<char>,
)
    requires
        holds_marks(dead, items),
        holds_manual_prices(prices, fields),
    ensures
        dead.contains_key(symbol) <==> dead_since(items, symbol) is Some,
        dead.contains_key(symbol) ==> dead_since(items, symbol) == Some(dead[symbol]@),
        prices.contains_key(symbol) <==> manual_price_of(fields, symbol) is Some,
        prices.contains_key(symbol) ==> manual_price_of(fields, symbol) == Some(prices[symbol]),
{
    assert(dead_since(items, symbol) is Some || dead_since(items, symbol) is None);
    assert(manual_price_of(fields, symbol) is Some || manual_price_of(fields, symbol) is None);
}

} // verus!
