//! The watchlist: what is kept of each watched symbol once, and on which lists
//! it stands.
use vstd::prelude::*;
use crate::cash::{signed, signed_text};
use crate::context::found;
use crate::number::Number;
use crate::order::{
    distinct_sorted, are_ranked, sorted, strictly_ascending, text_order_is_irreflexive,
    text_order_is_total, text_order_is_transitive, Ranked,
};
use crate::reply::{bad_request, not_found, refused, Reason, Refusal};
use crate::settings::lemma_filter_push;
use crate::symbols::{normal_symbol, normalize_symbol};
use crate::text::{
    contains_text, is_before, is_blank, joined3, option_slice_view, option_view, owned, same,
    string_views, text_before, trim_text, trimmed,
};
use crate::textmap::TextMap;

verus! {

broadcast use vstd::string::group_string_axioms;

// ---------------------------------------------------------------------------
// What is kept
// ---------------------------------------------------------------------------

/// What is kept of a watched symbol.
#[derive(Debug)]
pub struct WatchData {
    pub notes: Option<String>,
    pub breakthrough_price: Option<Number>,
    pub stop_loss_price: Option<Number>,
    pub updated_at: String,
}

/// What is kept of a watched symbol.
pub struct DataView {
    pub notes: Option<Seq<char>>,
    pub breakthrough_price: Option<Number>,
    pub stop_loss_price: Option<Number>,
    pub updated_at: Seq<char>,
}

impl View for WatchData {
    type V = DataView;

    open spec fn view(&self) -> DataView {
        DataView {
            notes: option_view(self.notes),
            breakthrough_price: self.breakthrough_price,
            stop_loss_price: self.stop_loss_price,
            updated_at: self.updated_at@,
        }
    }
}

/// That a symbol stands on a list.
#[derive(Debug)]
pub struct Membership {
    pub id: i64,
    pub symbol: String,
    pub list_name: String,
    pub added_at: String,
}

/// That a symbol stands on a list.
pub struct MemberView {
    pub id: i64,
    pub symbol: Seq<char>,
    pub list_name: Seq<char>,
    pub added_at: Seq<char>,
}

impl View for Membership {
    type V = MemberView;

    open spec fn view(&self) -> MemberView {
        MemberView {
            id: self.id,
            symbol: self.symbol@,
            list_name: self.list_name@,
            added_at: self.added_at@,
        }
    }
}

/// The watchlist.
#[derive(Debug)]
pub struct Watchlist {
    pub symbols: TextMap<WatchData>,
    pub memberships: Vec<Membership>,
}

impl Watchlist {
    /// What is kept of each symbol.
    pub open spec fn data(&self) -> Map<Seq<char>, DataView> {
        self.symbols@.map_values(|d: WatchData| d@)
    }

    /// Which symbol stands on which list.
    pub open spec fn members(&self) -> Seq<MemberView> {
        member_views(self.memberships@)
    }
}

/// The views of some memberships.
pub open spec fn member_views(ms: Seq<Membership>) -> Seq<MemberView> {
    Seq::new(ms.len(), |i: int| ms[i]@)
}

/// Whether the symbol stands on a list.
pub open spec fn on_any_list(members: Seq<MemberView>, symbol: Seq<char>) -> bool {
    exists|i: int| 0 <= i < members.len() && (#[trigger] members[i]).symbol == symbol
}

/// Whether the symbol stands on that list.
pub open spec fn on_list(members: Seq<MemberView>, symbol: Seq<char>, list: Seq<char>) -> bool {
    exists|i: int|
        0 <= i < members.len() && (#[trigger] members[i]).symbol == symbol && members[i].list_name
            == list
}

/// Whether something is kept of every symbol on a list.
pub open spec fn linked(data: Map<Seq<char>, DataView>, members: Seq<MemberView>) -> bool {
    forall|i: int| 0 <= i < members.len() ==> data.contains_key((#[trigger] members[i]).symbol)
}

/// Whether no symbol stands on a list twice.
pub open spec fn no_doubles(members: Seq<MemberView>) -> bool {
    forall|i: int, j: int|
        0 <= i < members.len() && 0 <= j < members.len() && (#[trigger] members[i]).symbol == (
        #[trigger] members[j]).symbol && members[i].list_name == members[j].list_name ==> i == j
}

fn stands_on(ms: &Vec<Membership>, symbol: &str, list: &str) -> (r: bool)
    ensures
        r == on_list(member_views(ms@), symbol@, list@),
{
    let ghost all = member_views(ms@);
    let mut i: usize = 0;
    while i < ms.len()
        invariant
            i <= ms.len(),
            all == member_views(ms@),
            forall|j: int|
                0 <= j < i ==> !((#[trigger] all[j]).symbol == symbol@ && all[j].list_name
                    == list@),
        decreases ms.len() - i,
    {
        assert(all[i as int] == ms@[i as int]@);
        if same(ms[i].symbol.as_str(), symbol) && same(ms[i].list_name.as_str(), list) {
            return true;
        }
        i += 1;
    }
    false
}

fn stands_anywhere(ms: &Vec<Membership>, symbol: &str) -> (r: bool)
    ensures
        r == on_any_list(member_views(ms@), symbol@),
{
    let ghost all = member_views(ms@);
    let mut i: usize = 0;
    while i < ms.len()
        invariant
            i <= ms.len(),
            all == member_views(ms@),
            forall|j: int| 0 <= j < i ==> (#[trigger] all[j]).symbol != symbol@,
        decreases ms.len() - i,
    {
        assert(all[i as int] == ms@[i as int]@);
        if same(ms[i].symbol.as_str(), symbol) {
            return true;
        }
        i += 1;
    }
    false
}

// ---------------------------------------------------------------------------
// Adding
// ---------------------------------------------------------------------------

/// The first of two values.
pub open spec fn either<T>(a: Option<T>, b: Option<T>) -> Option<T> {
    if a is Some {
        a
    } else {
        b
    }
}

/// What is kept of a symbol once it has been added with these: what is not sent
/// stays.
pub open spec fn added_data(
    before: Option<DataView>,
    notes: Option<Seq<char>>,
    breakthrough_price: Option<Number>,
    stop_loss_price: Option<Number>,
    now: Seq<char>,
) -> DataView {
    match before {
        None => DataView { notes, breakthrough_price, stop_loss_price, updated_at: now },
        Some(d) => DataView {
            notes: either(notes, d.notes),
            breakthrough_price: either(breakthrough_price, d.breakthrough_price),
            stop_loss_price: either(stop_loss_price, d.stop_loss_price),
            updated_at: now,
        },
    }
}

/// The memberships once the symbol has been put on the list.
pub open spec fn put_on(
    members: Seq<MemberView>,
    id: i64,
    symbol: Seq<char>,
    list: Seq<char>,
    now: Seq<char>,
) -> Seq<MemberView> {
    if on_list(members, symbol, list) {
        members
    } else {
        members.push(MemberView { id, symbol, list_name: list, added_at: now })
    }
}

/// Putting a symbol on a list keeps the watchlist sound.
proof fn lemma_put_on(
    members: Seq<MemberView>,
    id: i64,
    symbol: Seq<char>,
    list: Seq<char>,
    now: Seq<char>,
)
    ensures
        no_doubles(members) ==> no_doubles(put_on(members, id, symbol, list, now)),
        on_list(put_on(members, id, symbol, list, now), symbol, list),
{
    let after = put_on(members, id, symbol, list, now);
    if !on_list(members, symbol, list) {
        let n = members.len() as int;
        assert(after[n].symbol == symbol);
        if no_doubles(members) {
            assert forall|i: int, j: int|
                0 <= i < after.len() && 0 <= j < after.len() && (#[trigger] after[i]).symbol == (
                #[trigger] after[j]).symbol && after[i].list_name == after[j].list_name implies i
                == j by {
                if i < n && j < n {
                    assert(members[i].symbol == members[j].symbol);
                } else if i < n {
                    assert(members[i].symbol == symbol);
                } else if j < n {
                    assert(members[j].symbol == symbol);
                }
            }
        }
    }
}

fn clone_notes(s: &Option<String>) -> (r: Option<String>)
    ensures
        option_view(r) == option_view(*s),
{
    match s {
        Some(t) => Some(t.clone()),
        None => None,
    }
}

/// Adds a symbol to a list. What is already kept of it and is not sent stays,
/// and one that stands on the list already does not get on it twice. `new_id`
/// is the number of the membership, where there is a new one.
pub fn insert_watchlist_symbol(
    w: &mut Watchlist,
    symbol: &str,
    list_name: &str,
    notes: Option<&str>,
    breakthrough_price: Option<Number>,
    stop_loss_price: Option<Number>,
    now: &str,
    new_id: i64,
)
    ensures
        final(w).data() == old(w).data().insert(
            symbol@,
            added_data(
                found(old(w).data(), symbol@),
                option_slice_view(notes),
                breakthrough_price,
                stop_loss_price,
                now@,
            ),
        ),
        final(w).members() == put_on(old(w).members(), new_id, symbol@, list_name@, now@),
        linked(old(w).data(), old(w).members()) ==> linked(final(w).data(), final(w).members()),
        no_doubles(old(w).members()) ==> no_doubles(final(w).members()),
{
    let ghost data0 = w.data();
    let ghost members0 = w.members();
    let data = match w.symbols.get(symbol) {
        None => WatchData {
            notes: owned(notes),
            breakthrough_price,
            stop_loss_price,
            updated_at: now.to_owned(),
        },
        Some(d) => WatchData {
            notes: match notes {
                Some(n) => Some(n.to_owned()),
                None => clone_notes(&d.notes),
            },
            breakthrough_price: match breakthrough_price {
                Some(p) => Some(p),
                None => d.breakthrough_price,
            },
            stop_loss_price: match stop_loss_price {
                Some(p) => Some(p),
                None => d.stop_loss_price,
            },
            updated_at: now.to_owned(),
        },
    };
    let ghost v = data@;
    w.symbols.insert(symbol.to_owned(), data);
    assert(w.data() =~= data0.insert(symbol@, v));
    if !stands_on(&w.memberships, symbol, list_name) {
        w.memberships.push(
            Membership {
                id: new_id,
                symbol: symbol.to_owned(),
                list_name: list_name.to_owned(),
                added_at: now.to_owned(),
            },
        );
    }
    proof {
        lemma_put_on(members0, new_id, symbol@, list_name@, now@);
        assert(w.members() =~= put_on(members0, new_id, symbol@, list_name@, now@));
        assert forall|i: int|
            linked(data0, members0) && 0 <= i < w.members().len() implies w.data().contains_key(
            (#[trigger] w.members()[i]).symbol,
        ) by {
            if i < members0.len() {
                assert(data0.contains_key(members0[i].symbol));
            }
        }
    }
}

/// The symbol and the list that a request to add names, or what is wrong.
pub open spec fn addition(symbol: Seq<char>, list: Option<Seq<char>>) -> Result<
    (Seq<char>, Seq<char>),
    (Reason, Seq<char>),
> {
    if is_blank(symbol) {
        Err((Reason::BadRequest, "Symbol is required"@))
    } else {
        Ok(
            (
                normal_symbol(trim_text(symbol)),
                match list {
                    Some(l) => l,
                    None => "Default"@,
                },
            ),
        )
    }
}

/// The symbol and the list that a request to add names.
pub fn requested_addition(symbol: &str, list: Option<&str>) -> (r: Result<(String, String), Refusal>)
    ensures
        match r {
            Ok(p) => addition(symbol@, option_slice_view(list)) == Ok::<
                (Seq<char>, Seq<char>),
                (Reason, Seq<char>),
            >((p.0@, p.1@)),
            Err(e) => addition(symbol@, option_slice_view(list)) == Err::<
                (Seq<char>, Seq<char>),
                (Reason, Seq<char>),
            >(e@),
        },
{
    let t = trimmed(symbol);
    if t.is_empty() {
        return Err(bad_request("Symbol is required"));
    }
    let name = match list {
        Some(l) => l.to_owned(),
        None => "Default".to_owned(),
    };
    Ok((normalize_symbol(t), name))
}

// ---------------------------------------------------------------------------
// Removing
// ---------------------------------------------------------------------------

/// The first membership of that number, from number `i` on.
pub open spec fn member_from(members: Seq<MemberView>, id: i64, i: int) -> Option<MemberView>
    decreases members.len() - i,
{
    if i < 0 || i >= members.len() {
        None
    } else if members[i].id == id {
        Some(members[i])
    } else {
        member_from(members, id, i + 1)
    }
}

/// The memberships without that of the number.
pub open spec fn without_member(members: Seq<MemberView>, id: i64) -> Seq<MemberView> {
    members.filter(|m: MemberView| m.id != id)
}

fn symbol_of_member(ms: &Vec<Membership>, id: i64) -> (r: Option<String>)
    ensures
        option_view(r) == (match member_from(member_views(ms@), id, 0) {
            Some(m) => Some(m.symbol),
            None => None,
        }),
{
    let ghost all = member_views(ms@);
    let mut i: usize = 0;
    while i < ms.len()
        invariant
            i <= ms.len(),
            all == member_views(ms@),
            member_from(all, id, 0) == member_from(all, id, i as int),
        decreases ms.len() - i,
    {
        assert(all[i as int] == ms@[i as int]@);
        if ms[i].id == id {
            return Some(ms[i].symbol.clone());
        }
        i += 1;
    }
    None
}

/// Keeps the memberships other than that of the number.
fn drop_member(ms: Vec<Membership>, id: i64) -> (r: Vec<Membership>)
    ensures
        member_views(r@) == without_member(member_views(ms@), id),
{
    let ghost all = member_views(ms@);
    let ghost keep = |m: MemberView| m.id != id;
    let mut out: Vec<Membership> = Vec::new();
    assert(member_views(out@) =~= all.take(0).filter(keep)) by {
        reveal(Seq::filter);
    }
    for m in it: ms
        invariant
            it.seq() == ms@,
            all == member_views(ms@),
            keep == (|m: MemberView| m.id != id),
            member_views(out@) == all.take(it.index() as int).filter(keep),
    {
        let ghost n = it.index() as int;
        let ghost before = member_views(out@);
        let ghost this = m@;
        proof {
            assert(all.take(n + 1) =~= all.take(n).push(this));
            lemma_filter_push(all.take(n), this, keep);
        }
        if m.id != id {
            out.push(m);
            assert(member_views(out@) =~= before.push(this));
        }
    }
    assert(all.take(all.len() as int) =~= all);
    out
}

/// Takes a symbol off a list, by the number of the membership, and whether
/// there was such a membership. What is kept of the symbol goes with the last
/// list that it stands on.
pub fn remove_watchlist_symbol(w: &mut Watchlist, id: i64) -> (r: bool)
    ensures
        r == member_from(old(w).members(), id, 0) is Some,
        final(w).members() == without_member(old(w).members(), id),
        final(w).data() == (match member_from(old(w).members(), id, 0) {
            Some(m) => if on_any_list(final(w).members(), m.symbol) {
                old(w).data()
            } else {
                old(w).data().remove(m.symbol)
            },
            None => old(w).data(),
        }),
        linked(old(w).data(), old(w).members()) ==> linked(final(w).data(), final(w).members()),
        no_doubles(old(w).members()) ==> no_doubles(final(w).members()),
{
    let ghost data0 = w.data();
    let ghost members0 = w.members();
    let symbol = symbol_of_member(&w.memberships, id);
    let mut ms: Vec<Membership> = Vec::new();
    core::mem::swap(&mut ms, &mut w.memberships);
    w.memberships = drop_member(ms, id);
    match &symbol {
        Some(s) => {
            if !stands_anywhere(&w.memberships, s.as_str()) {
                let _ = w.symbols.remove(s.as_str());
                assert(w.data() =~= data0.remove(s@));
            }
        },
        None => {},
    }
    proof {
        let keep = |m: MemberView| m.id != id;
        lemma_kept_sound(data0, members0, keep);
        if linked(data0, members0) {
            assert(linked(data0, w.members()));
            assert forall|i: int| 0 <= i < w.members().len() implies w.data().contains_key(
                (#[trigger] w.members()[i]).symbol,
            ) by {
                assert(data0.contains_key(w.members()[i].symbol));
            }
        }
    }
    symbol.is_some()
}

/// Leaving memberships out keeps the watchlist sound.
proof fn lemma_kept_sound(
    data: Map<Seq<char>, DataView>,
    members: Seq<MemberView>,
    keep: spec_fn(MemberView) -> bool,
)
    ensures
        linked(data, members) ==> linked(data, members.filter(keep)),
        no_doubles(members) ==> no_doubles(members.filter(keep)),
        forall|i: int|
            0 <= i < members.filter(keep).len() ==> exists|j: int|
                0 <= j < members.len() && members[j] == #[trigger] members.filter(keep)[i],
    decreases members.len(),
{
    reveal(Seq::filter);
    if members.len() > 0 {
        let less = members.drop_last();
        lemma_kept_sound(data, less, keep);
        let n = members.len() - 1;
        let all = members.filter(keep);
        let sub = less.filter(keep);
        assert forall|i: int| 0 <= i < all.len() implies exists|j: int|
            0 <= j < members.len() && members[j] == #[trigger] all[i] by {
            if i < sub.len() {
                assert(all[i] == sub[i]);
                let j = choose|j: int| 0 <= j < less.len() && less[j] == sub[i];
                assert(members[j] == all[i]);
            } else {
                assert(members[n] == all[i]);
            }
        }
        if linked(data, members) {
            assert forall|i: int| 0 <= i < all.len() implies data.contains_key(
                (#[trigger] all[i]).symbol,
            ) by {
                let j = choose|j: int| 0 <= j < members.len() && members[j] == all[i];
                assert(data.contains_key(members[j].symbol));
            }
        }
        if no_doubles(members) {
            assert forall|i: int, j: int|
                0 <= i < less.len() && 0 <= j < less.len() && (#[trigger] less[i]).symbol == (
                #[trigger] less[j]).symbol && less[i].list_name == less[j].list_name implies i
                == j by {
                assert(members[i].symbol == members[j].symbol);
            }
            assert forall|i: int, j: int|
                0 <= i < all.len() && 0 <= j < all.len() && (#[trigger] all[i]).symbol == (
                #[trigger] all[j]).symbol && all[i].list_name == all[j].list_name implies i
                == j by {
                if i < sub.len() && j < sub.len() {
                    assert(sub[i].symbol == sub[j].symbol);
                } else if i < sub.len() {
                    let k = choose|k: int| 0 <= k < less.len() && less[k] == sub[i];
                    assert(members[k].symbol == members[n].symbol);
                } else if j < sub.len() {
                    let k = choose|k: int| 0 <= k < less.len() && less[k] == sub[j];
                    assert(members[k].symbol == members[n].symbol);
                }
            }
        }
    }
}

/// The memberships of other symbols.
pub open spec fn of_others(members: Seq<MemberView>, symbol: Seq<char>) -> Seq<MemberView> {
    members.filter(|m: MemberView| m.symbol != symbol)
}

/// Takes a symbol off all lists and forgets what is kept of it, and from how
/// many lists it was taken: it is held now.
pub fn remove_from_all_lists(w: &mut Watchlist, symbol: &str) -> (r: usize)
    ensures
        final(w).members() == of_others(old(w).members(), symbol@),
        final(w).data() == old(w).data().remove(symbol@),
        r == old(w).members().len() - final(w).members().len(),
        linked(old(w).data(), old(w).members()) ==> linked(final(w).data(), final(w).members()),
        no_doubles(old(w).members()) ==> no_doubles(final(w).members()),
{
    let ghost data0 = w.data();
    let ghost members0 = w.members();
    let mut ms: Vec<Membership> = Vec::new();
    core::mem::swap(&mut ms, &mut w.memberships);
    let before: usize = ms.len();
    let ghost all = member_views(ms@);
    let ghost keep = |m: MemberView| m.symbol != symbol@;
    let mut out: Vec<Membership> = Vec::new();
    assert(member_views(out@) =~= all.take(0).filter(keep)) by {
        reveal(Seq::filter);
    }
    for m in it: ms
        invariant
            it.seq() == ms@,
            all == member_views(ms@),
            keep == (|m: MemberView| m.symbol != symbol@),
            out@.len() <= it.index(),
            member_views(out@) == all.take(it.index() as int).filter(keep),
    {
        let ghost n = it.index() as int;
        let ghost prior = member_views(out@);
        let ghost this = m@;
        proof {
            assert(all.take(n + 1) =~= all.take(n).push(this));
            lemma_filter_push(all.take(n), this, keep);
        }
        if !same(m.symbol.as_str(), symbol) {
            out.push(m);
            assert(member_views(out@) =~= prior.push(this));
        }
    }
    assert(all.take(all.len() as int) =~= all);
    let after: usize = out.len();
    w.memberships = out;
    let _ = w.symbols.remove(symbol);
    assert(w.data() =~= data0.remove(symbol@));
    proof {
        lemma_kept_sound(data0, members0, keep);
        if linked(data0, members0) {
            assert(linked(data0, w.members()));
            assert forall|i: int| 0 <= i < w.members().len() implies w.data().contains_key(
                (#[trigger] w.members()[i]).symbol,
            ) by {
                members0.lemma_filter_pred(keep, i);
                assert(data0.contains_key(w.members()[i].symbol));
            }
        }
    }
    before - after
}

// ---------------------------------------------------------------------------
// Changing
// ---------------------------------------------------------------------------

/// What is kept of a symbol after a change: what is not mentioned stays, and an
/// explicit null clears.
pub open spec fn changed_data(
    before: DataView,
    notes: Option<Option<Seq<char>>>,
    breakthrough_price: Option<Option<Number>>,
    stop_loss_price: Option<Option<Number>>,
) -> DataView {
    DataView {
        notes: match notes {
            Some(n) => n,
            None => before.notes,
        },
        breakthrough_price: match breakthrough_price {
            Some(p) => p,
            None => before.breakthrough_price,
        },
        stop_loss_price: match stop_loss_price {
            Some(p) => p,
            None => before.stop_loss_price,
        },
        updated_at: before.updated_at,
    }
}

/// The view of what is sent of the notes.
pub open spec fn sent_notes(notes: Option<Option<String>>) -> Option<Option<Seq<char>>> {
    match notes {
        Some(n) => Some(option_view(n)),
        None => None,
    }
}

/// Changes what is kept of a symbol, by the number of a membership. What is not
/// mentioned stays; an explicit null clears.
pub fn update_watchlist_symbol_notes(
    w: &mut Watchlist,
    id: i64,
    notes: Option<Option<String>>,
    breakthrough_price: Option<Option<Number>>,
    stop_loss_price: Option<Option<Number>>,
) -> (r: Result<(), String>)
    ensures
        final(w).members() == old(w).members(),
        match member_from(old(w).members(), id, 0) {
            None => r is Err && r->Err_0@ == "Membership id "@ + signed_text(id as int)
                + " not found"@ && final(w).data() == old(w).data(),
            Some(m) => match found(old(w).data(), m.symbol) {
                None => r is Err && r->Err_0@ == "Query returned no rows"@ && final(w).data()
                    == old(w).data(),
                Some(d) => r is Ok && final(w).data() == old(w).data().insert(
                    m.symbol,
                    changed_data(d, sent_notes(notes), breakthrough_price, stop_loss_price),
                ),
            },
        },
{
    let ghost data0 = w.data();
    let symbol = match symbol_of_member(&w.memberships, id) {
        None => {
            return Err(joined3("Membership id ", signed(id).as_str(), " not found"));
        },
        Some(s) => s,
    };
    let data = match w.symbols.get(symbol.as_str()) {
        None => return Err("Query returned no rows".to_owned()),
        Some(d) => WatchData {
            notes: match notes {
                Some(n) => n,
                None => clone_notes(&d.notes),
            },
            breakthrough_price: match breakthrough_price {
                Some(p) => p,
                None => d.breakthrough_price,
            },
            stop_loss_price: match stop_loss_price {
                Some(p) => p,
                None => d.stop_loss_price,
            },
            updated_at: d.updated_at.clone(),
        },
    };
    let ghost v = data@;
    let ghost s = symbol@;
    w.symbols.insert(symbol, data);
    assert(w.data() =~= data0.insert(s, v));
    Ok(())
}

// ---------------------------------------------------------------------------
// Renaming a list
// ---------------------------------------------------------------------------

/// The memberships once one list has been renamed to another: where the symbol
/// stands on the other already, the one of the old name goes.
pub open spec fn renamed_list(
    members: Seq<MemberView>,
    all: Seq<MemberView>,
    old_name: Seq<char>,
    new_name: Seq<char>,
) -> Seq<MemberView>
    decreases members.len(),
{
    if members.len() == 0 {
        seq![]
    } else {
        let m = members.last();
        let earlier = renamed_list(members.drop_last(), all, old_name, new_name);
        if m.list_name != old_name {
            earlier.push(m)
        } else if on_list(all, m.symbol, new_name) {
            earlier
        } else {
            earlier.push(MemberView { list_name: new_name, ..m })
        }
    }
}

/// How many memberships are on the list.
pub open spec fn list_size(members: Seq<MemberView>, name: Seq<char>) -> nat
    decreases members.len(),
{
    if members.len() == 0 {
        0
    } else if members.last().list_name == name {
        list_size(members.drop_last(), name) + 1
    } else {
        list_size(members.drop_last(), name)
    }
}

/// Renames a list, and how many memberships that touches. Renaming onto another
/// list joins the two.
pub fn rename_list(w: &mut Watchlist, old_name: &str, new_name: &str) -> (r: usize)
    ensures
        final(w).data() == old(w).data(),
        final(w).members() == renamed_list(
            old(w).members(),
            old(w).members(),
            old_name@,
            new_name@,
        ),
        r == list_size(old(w).members(), old_name@),
        linked(old(w).data(), old(w).members()) ==> linked(final(w).data(), final(w).members()),
        no_doubles(old(w).members()) && old_name@ != new_name@ ==> no_doubles(
            final(w).members(),
        ),
{
    let ghost data0 = w.data();
    let mut ms: Vec<Membership> = Vec::new();
    core::mem::swap(&mut ms, &mut w.memberships);
    let ghost all = member_views(ms@);
    let mut out: Vec<Membership> = Vec::new();
    let mut touched: usize = 0;
    let mut i: usize = 0;
    assert(member_views(out@) =~= seq![]);
    while i < ms.len()
        invariant
            i <= ms.len(),
            all == member_views(ms@),
            touched <= i,
            touched == list_size(all.take(i as int), old_name@),
            member_views(out@) == renamed_list(all.take(i as int), all, old_name@, new_name@),
        decreases ms.len() - i,
    {
        let ghost before = member_views(out@);
        proof {
            assert(all.take(i + 1).drop_last() =~= all.take(i as int));
            assert(all.take(i + 1).last() == ms@[i as int]@);
        }
        let m = &ms[i];
        if !same(m.list_name.as_str(), old_name) {
            let kept = Membership {
                id: m.id,
                symbol: m.symbol.clone(),
                list_name: m.list_name.clone(),
                added_at: m.added_at.clone(),
            };
            let ghost v = kept@;
            out.push(kept);
            assert(member_views(out@) =~= before.push(v));
        } else {
            touched += 1;
            if !stands_on(&ms, m.symbol.as_str(), new_name) {
                let moved = Membership {
                    id: m.id,
                    symbol: m.symbol.clone(),
                    list_name: new_name.to_owned(),
                    added_at: m.added_at.clone(),
                };
                let ghost v = moved@;
                out.push(moved);
                assert(member_views(out@) =~= before.push(v));
            }
        }
        i += 1;
    }
    assert(all.take(ms.len() as int) =~= all);
    w.memberships = out;
    proof {
        assert(w.data() == data0);
        if linked(data0, all) {
            lemma_renamed_linked(data0, all, all, old_name@, new_name@);
        }
        if no_doubles(all) && old_name@ != new_name@ {
            lemma_renamed_once(all, all, old_name@, new_name@);
        }
    }
    touched
}

proof fn lemma_renamed_linked(
    data: Map<Seq<char>, DataView>,
    members: Seq<MemberView>,
    all: Seq<MemberView>,
    old_name: Seq<char>,
    new_name: Seq<char>,
)
    requires
        linked(data, members),
    ensures
        linked(data, renamed_list(members, all, old_name, new_name)),
    decreases members.len(),
{
    if members.len() > 0 {
        let less = members.drop_last();
        assert forall|i: int| 0 <= i < less.len() implies data.contains_key(
            (#[trigger] less[i]).symbol,
        ) by {
            assert(data.contains_key(members[i].symbol));
        }
        lemma_renamed_linked(data, less, all, old_name, new_name);
        assert(data.contains_key(members[members.len() - 1].symbol));
    }
}

/// Whether a membership after a rename comes from the one before it.
spec fn comes_from(
    after: MemberView,
    before: MemberView,
    all: Seq<MemberView>,
    old_name: Seq<char>,
    new_name: Seq<char>,
) -> bool {
    if before.list_name == old_name {
        after == (MemberView { list_name: new_name, ..before }) && !on_list(
            all,
            before.symbol,
            new_name,
        )
    } else {
        after == before
    }
}

proof fn lemma_renamed_origin(
    members: Seq<MemberView>,
    all: Seq<MemberView>,
    old_name: Seq<char>,
    new_name: Seq<char>,
    i: int,
) -> (k: int)
    requires
        0 <= i < renamed_list(members, all, old_name, new_name).len(),
    ensures
        0 <= k < members.len(),
        comes_from(
            renamed_list(members, all, old_name, new_name)[i],
            members[k],
            all,
            old_name,
            new_name,
        ),
    decreases members.len(),
{
    let earlier = renamed_list(members.drop_last(), all, old_name, new_name);
    if i < earlier.len() {
        lemma_renamed_origin(members.drop_last(), all, old_name, new_name, i)
    } else {
        members.len() - 1
    }
}

/// Renaming a list puts no symbol on a list twice.
proof fn lemma_renamed_once(
    members: Seq<MemberView>,
    all: Seq<MemberView>,
    old_name: Seq<char>,
    new_name: Seq<char>,
)
    requires
        old_name != new_name,
        no_doubles(members),
        members.len() <= all.len(),
        forall|i: int| 0 <= i < members.len() ==> #[trigger] members[i] == all[i],
    ensures
        no_doubles(renamed_list(members, all, old_name, new_name)),
    decreases members.len(),
{
    if members.len() > 0 {
        let less = members.drop_last();
        let n = members.len() - 1;
        assert forall|i: int, j: int|
            0 <= i < less.len() && 0 <= j < less.len() && (#[trigger] less[i]).symbol == (
            #[trigger] less[j]).symbol && less[i].list_name == less[j].list_name implies i
            == j by {
            assert(members[i].symbol == members[j].symbol);
        }
        assert forall|i: int| 0 <= i < less.len() implies #[trigger] less[i] == all[i] by {
            assert(members[i] == all[i]);
        }
        lemma_renamed_once(less, all, old_name, new_name);
        let sub = renamed_list(less, all, old_name, new_name);
        let after = renamed_list(members, all, old_name, new_name);
        assert(members[n] == all[n]);
        assert forall|i: int, j: int|
            0 <= i < after.len() && 0 <= j < after.len() && (#[trigger] after[i]).symbol == (
            #[trigger] after[j]).symbol && after[i].list_name == after[j].list_name implies i
            == j by {
            if i < sub.len() && j < sub.len() {
                assert(sub[i].symbol == sub[j].symbol);
            } else if i < sub.len() || j < sub.len() {
                let e = if i < sub.len() {
                    i
                } else {
                    j
                };
                let k = lemma_renamed_origin(less, all, old_name, new_name, e);
                assert(members[k] == all[k]);
                assert(members[k].symbol == members[n].symbol);
                assert(all[n].symbol == members[n].symbol);
                assert(all[k].symbol == members[n].symbol);
            }
        }
    }
}

/// What a request to rename a list comes to, `touched` being how many
/// memberships the list has.
pub open spec fn rename_verdict(old_name: Seq<char>, new_name: Seq<char>, touched: int) -> Result<
    bool,
    (Reason, Seq<char>),
> {
    if is_blank(old_name) || is_blank(new_name) {
        Err((Reason::BadRequest, "Both old and new list names are required"@))
    } else if trim_text(old_name) == trim_text(new_name) {
        Ok(false)
    } else if touched > 0 {
        Ok(true)
    } else {
        Err((Reason::NotFound, "List '"@ + trim_text(old_name) + "' not found"@))
    }
}

/// Renames a list as a request asks, and whether anything changed.
pub fn rename_watchlist_list(w: &mut Watchlist, old_name: &str, new_name: &str) -> (r: Result<
    bool,
    Refusal,
>)
    ensures
        refused(r) == rename_verdict(
            old_name@,
            new_name@,
            list_size(old(w).members(), trim_text(old_name@)) as int,
        ),
        final(w).data() == old(w).data(),
        final(w).members() == (if refused(r) == Ok::<bool, (Reason, Seq<char>)>(true) {
            renamed_list(
                old(w).members(),
                old(w).members(),
                trim_text(old_name@),
                trim_text(new_name@),
            )
        } else {
            old(w).members()
        }),
{
    let from = trimmed(old_name);
    let to = trimmed(new_name);
    if from.is_empty() || to.is_empty() {
        return Err(bad_request("Both old and new list names are required"));
    }
    if same(from, to) {
        return Ok(false);
    }
    let ghost before = w.members();
    let touched: usize = rename_list(w, from, to);
    if touched > 0 {
        Ok(true)
    } else {
        proof {
            lemma_rename_nothing(before, before, from@, to@);
        }
        Err(not_found(joined3("List '", from, "' not found").as_str()))
    }
}

proof fn lemma_rename_nothing(
    members: Seq<MemberView>,
    all: Seq<MemberView>,
    old_name: Seq<char>,
    new_name: Seq<char>,
)
    requires
        list_size(members, old_name) == 0,
    ensures
        renamed_list(members, all, old_name, new_name) == members,
    decreases members.len(),
{
    if members.len() > 0 {
        lemma_rename_nothing(members.drop_last(), all, old_name, new_name);
        assert(members =~= members.drop_last().push(members.last()));
    } else {
        assert(members =~= seq![]);
    }
}

/// Whatever stood on a list stands on the new one once the list has been
/// renamed.
pub proof fn a_renamed_list_keeps_its_symbols(
    members: Seq<MemberView>,
    old_name: Seq<char>,
    new_name: Seq<char>,
    symbol: Seq<char>,
)
    requires
        old_name != new_name,
        on_list(members, symbol, old_name),
    ensures
        on_list(renamed_list(members, members, old_name, new_name), symbol, new_name),
{
    let k = choose|k: int|
        0 <= k < members.len() && (#[trigger] members[k]).symbol == symbol
            && members[k].list_name == old_name;
    if on_list(members, symbol, new_name) {
        let j = choose|j: int|
            0 <= j < members.len() && (#[trigger] members[j]).symbol == symbol
                && members[j].list_name == new_name;
        lemma_renamed_reaches(members, members, old_name, new_name, j);
    } else {
        lemma_renamed_reaches(members, members, old_name, new_name, k);
    }
}

proof fn lemma_renamed_reaches(
    members: Seq<MemberView>,
    all: Seq<MemberView>,
    old_name: Seq<char>,
    new_name: Seq<char>,
    k: int,
)
    requires
        0 <= k < members.len(),
        members[k].list_name == new_name && old_name != new_name || members[k].list_name
            == old_name && !on_list(all, members[k].symbol, new_name),
    ensures
        on_list(renamed_list(members, all, old_name, new_name), members[k].symbol, new_name),
    decreases members.len(),
{
    let less = members.drop_last();
    let sub = renamed_list(less, all, old_name, new_name);
    let after = renamed_list(members, all, old_name, new_name);
    if k < members.len() - 1 {
        lemma_renamed_reaches(less, all, old_name, new_name, k);
        let i = choose|i: int|
            0 <= i < sub.len() && (#[trigger] sub[i]).symbol == members[k].symbol
                && sub[i].list_name == new_name;
        assert(after[i].symbol == members[k].symbol);
    } else {
        assert(after[sub.len() as int].symbol == members[k].symbol);
    }
}

/// Nothing stands on a list once it has been renamed.
pub proof fn a_renamed_list_is_gone(
    members: Seq<MemberView>,
    all: Seq<MemberView>,
    old_name: Seq<char>,
    new_name: Seq<char>,
    i: int,
)
    requires
        old_name != new_name,
        0 <= i < renamed_list(members, all, old_name, new_name).len(),
    ensures
        renamed_list(members, all, old_name, new_name)[i].list_name != old_name,
    decreases members.len(),
{
    if members.len() > 0 {
        let earlier = renamed_list(members.drop_last(), all, old_name, new_name);
        if i < earlier.len() {
            a_renamed_list_is_gone(members.drop_last(), all, old_name, new_name, i);
        }
    }
}


// ---------------------------------------------------------------------------
// Setting all lists of a symbol
// ---------------------------------------------------------------------------

/// The lists that a request names: trimmed, the blank ones left out.
pub open spec fn named_lists(lists: Seq<Seq<char>>) -> Seq<Seq<char>>
    decreases lists.len(),
{
    if lists.len() == 0 {
        seq![]
    } else {
        let earlier = named_lists(lists.drop_last());
        if is_blank(lists.last()) {
            earlier
        } else {
            earlier.push(trim_text(lists.last()))
        }
    }
}

fn lists_named(lists: &Vec<String>) -> (r: Vec<String>)
    ensures
        string_views(r@) == named_lists(string_views(lists@)),
        r@.len() <= lists@.len(),
{
    let ghost all = string_views(lists@);
    let mut out: Vec<String> = Vec::new();
    let mut i: usize = 0;
    assert(string_views(out@) =~= seq![]);
    while i < lists.len()
        invariant
            i <= lists.len(),
            all == string_views(lists@),
            out@.len() <= i,
            string_views(out@) == named_lists(all.take(i as int)),
        decreases lists.len() - i,
    {
        let ghost before = string_views(out@);
        proof {
            assert(all.take(i + 1).drop_last() =~= all.take(i as int));
            assert(all.take(i + 1).last() == lists@[i as int]@);
        }
        let t = trimmed(lists[i].as_str());
        if !t.is_empty() {
            out.push(t.to_owned());
            assert(string_views(out@) =~= before.push(t@));
        }
        i += 1;
    }
    assert(all.take(lists.len() as int) =~= all);
    out
}

/// The memberships once the symbol has been put on all the lists, the new ones
/// numbered from `next` on, and the number that comes after.
pub open spec fn put_on_all(
    members: Seq<MemberView>,
    next: int,
    symbol: Seq<char>,
    lists: Seq<Seq<char>>,
    now: Seq<char>,
) -> (Seq<MemberView>, int)
    decreases lists.len(),
{
    if lists.len() == 0 {
        (members, next)
    } else {
        let before = put_on_all(members, next, symbol, lists.drop_last(), now);
        (
            put_on(before.0, before.1 as i64, symbol, lists.last(), now),
            if on_list(before.0, symbol, lists.last()) {
                before.1
            } else {
                before.1 + 1
            },
        )
    }
}

/// The memberships without those of the symbol on lists that are not named.
pub open spec fn wanted_members(
    members: Seq<MemberView>,
    symbol: Seq<char>,
    lists: Seq<Seq<char>>,
) -> Seq<MemberView> {
    members.filter(|m: MemberView| m.symbol != symbol || lists.contains(m.list_name))
}

/// Sets on which lists a symbol stands and what is kept of it. Memberships that
/// stay keep their number; new ones are numbered from `next` on.
pub fn update_watchlist_symbol_lists(
    w: &mut Watchlist,
    symbol: &str,
    lists: &Vec<String>,
    notes: Option<String>,
    breakthrough_price: Option<Number>,
    stop_loss_price: Option<Number>,
    now: &str,
    next: i64,
) -> (r: Result<(), Refusal>)
    requires
        next + lists.len() <= i64::MAX,
    ensures
        refused(r) == (if named_lists(string_views(lists@)).len() == 0 {
            Err::<(), (Reason, Seq<char>)>((Reason::BadRequest, "At least one list is required"@))
        } else {
            Ok(())
        }),
        r is Err ==> final(w).data() == old(w).data() && final(w).members() == old(w).members(),
        r is Ok ==> final(w).data() == old(w).data().insert(
            normal_symbol(symbol@),
            (DataView {
                notes: option_view(notes),
                breakthrough_price,
                stop_loss_price,
                updated_at: now@,
            }),
        ) && final(w).members() == put_on_all(
            wanted_members(
                old(w).members(),
                normal_symbol(symbol@),
                named_lists(string_views(lists@)),
            ),
            next as int,
            normal_symbol(symbol@),
            named_lists(string_views(lists@)),
            now@,
        ).0,
        linked(old(w).data(), old(w).members()) ==> linked(final(w).data(), final(w).members()),
        no_doubles(old(w).members()) ==> no_doubles(final(w).members()),
{
    let symbol = normalize_symbol(symbol);
    let lists = lists_named(lists);
    if lists.is_empty() {
        return Err(bad_request("At least one list is required"));
    }
    let ghost data0 = w.data();
    let ghost members0 = w.members();
    let ghost wanted = string_views(lists@);
    let ghost sym = symbol@;
    let data = WatchData { notes, breakthrough_price, stop_loss_price, updated_at: now.to_owned() };
    let ghost v = data@;
    w.symbols.insert(symbol.clone(), data);
    assert(w.data() =~= data0.insert(sym, v));
    let mut ms: Vec<Membership> = Vec::new();
    core::mem::swap(&mut ms, &mut w.memberships);
    let mut out = drop_unwanted(ms, symbol.as_str(), &lists);
    let ghost kept = member_views(out@);
    proof {
        let keep = |m: MemberView| m.symbol != sym || wanted.contains(m.list_name);
        assert(kept == members0.filter(keep));
        lemma_kept_sound(data0, members0, keep);
        if linked(data0, members0) {
            assert forall|i: int| 0 <= i < kept.len() implies w.data().contains_key(
                (#[trigger] kept[i]).symbol,
            ) by {
                assert(data0.contains_key(kept[i].symbol));
            }
        }
    }
    let mut id: i64 = next;
    let mut i: usize = 0;
    let ghost doubles = no_doubles(kept);
    let ghost whole = linked(w.data(), kept);
    let ghost data1 = w.data();
    assert(wanted.take(0) =~= seq![]);
    while i < lists.len()
        invariant
            i <= lists.len(),
            wanted == string_views(lists@),
            sym == symbol@,
            data1.contains_key(sym),
            doubles ==> no_doubles(member_views(out@)),
            whole ==> linked(data1, member_views(out@)),
            next <= id <= next + i,
            next + lists.len() <= i64::MAX,
            (member_views(out@), id as int) == put_on_all(
                kept,
                next as int,
                sym,
                wanted.take(i as int),
                now@,
            ),
        decreases lists.len() - i,
    {
        let ghost before = member_views(out@);
        let list = lists[i].as_str();
        proof {
            assert(wanted.take(i + 1).drop_last() =~= wanted.take(i as int));
            assert(wanted.take(i + 1).last() == list@);
            lemma_put_on(before, id, sym, list@, now@);
        }
        if !stands_on(&out, symbol.as_str(), list) {
            out.push(
                Membership {
                    id,
                    symbol: symbol.clone(),
                    list_name: list.to_owned(),
                    added_at: now.to_owned(),
                },
            );
            proof {
                assert(member_views(out@) =~= put_on(before, id, sym, list@, now@));
                if whole {
                    assert forall|k: int| 0 <= k < member_views(out@).len() implies data1.contains_key(
                        (#[trigger] member_views(out@)[k]).symbol,
                    ) by {
                        if k < before.len() {
                            assert(data1.contains_key(before[k].symbol));
                        }
                    }
                }
            }
            id += 1;
        }
        i += 1;
    }
    assert(wanted.take(lists.len() as int) =~= wanted);
    w.memberships = out;
    Ok(())
}

fn drop_unwanted(ms: Vec<Membership>, symbol: &str, lists: &Vec<String>) -> (r: Vec<Membership>)
    ensures
        member_views(r@) == wanted_members(member_views(ms@), symbol@, string_views(lists@)),
{
    let ghost all = member_views(ms@);
    let ghost wanted = string_views(lists@);
    let ghost keep = |m: MemberView| m.symbol != symbol@ || wanted.contains(m.list_name);
    let mut out: Vec<Membership> = Vec::new();
    assert(member_views(out@) =~= all.take(0).filter(keep)) by {
        reveal(Seq::filter);
    }
    for m in it: ms
        invariant
            it.seq() == ms@,
            all == member_views(ms@),
            wanted == string_views(lists@),
            keep == (|m: MemberView| m.symbol != symbol@ || wanted.contains(m.list_name)),
            member_views(out@) == all.take(it.index() as int).filter(keep),
    {
        let ghost n = it.index() as int;
        let ghost before = member_views(out@);
        let ghost this = m@;
        proof {
            assert(all.take(n + 1) =~= all.take(n).push(this));
            lemma_filter_push(all.take(n), this, keep);
        }
        if !same(m.symbol.as_str(), symbol) || contains_text(lists, m.list_name.as_str()) {
            out.push(m);
            assert(member_views(out@) =~= before.push(this));
        }
    }
    assert(all.take(all.len() as int) =~= all);
    out
}

/// Once the lists of a symbol have been set, it stands on those and no others.
pub proof fn the_lists_set_are_the_lists_stood_on(
    members: Seq<MemberView>,
    next: int,
    symbol: Seq<char>,
    lists: Seq<Seq<char>>,
    now: Seq<char>,
    list: Seq<char>,
)
    ensures
        on_list(
            put_on_all(wanted_members(members, symbol, lists), next, symbol, lists, now).0,
            symbol,
            list,
        ) <==> lists.contains(list),
{
    let kept = wanted_members(members, symbol, lists);
    lemma_put_on_all(kept, next, symbol, lists, now, symbol, list);
    if on_list(kept, symbol, list) {
        let i = choose|i: int|
            0 <= i < kept.len() && (#[trigger] kept[i]).symbol == symbol && kept[i].list_name
                == list;
        let keep = |m: MemberView| m.symbol != symbol || lists.contains(m.list_name);
        members.lemma_filter_pred(keep, i);
        assert(keep(kept[i]));
    }
}

/// Setting the lists of a symbol leaves all other symbols where they stood.
pub proof fn other_symbols_stay_on_their_lists(
    members: Seq<MemberView>,
    next: int,
    symbol: Seq<char>,
    lists: Seq<Seq<char>>,
    now: Seq<char>,
    other: Seq<char>,
    list: Seq<char>,
)
    requires
        other != symbol,
    ensures
        on_list(
            put_on_all(wanted_members(members, symbol, lists), next, symbol, lists, now).0,
            other,
            list,
        ) <==> on_list(members, other, list),
{
    let kept = wanted_members(members, symbol, lists);
    let keep = |m: MemberView| m.symbol != symbol || lists.contains(m.list_name);
    lemma_put_on_all(kept, next, symbol, lists, now, other, list);
    lemma_kept_sound(Map::empty(), members, keep);
    if on_list(kept, other, list) {
        let i = choose|i: int|
            0 <= i < kept.len() && (#[trigger] kept[i]).symbol == other && kept[i].list_name
                == list;
        let j = choose|j: int| 0 <= j < members.len() && members[j] == members.filter(keep)[i];
        assert(members[j].symbol == other);
    }
    if on_list(members, other, list) {
        let i = choose|i: int|
            0 <= i < members.len() && (#[trigger] members[i]).symbol == other
                && members[i].list_name == list;
        assert(keep(members[i]));
        members.lemma_filter_contains(keep, i);
        let j = choose|j: int| 0 <= j < kept.len() && kept[j] == members[i];
        assert(kept[j].symbol == other);
    }
}

proof fn lemma_put_on_all(
    members: Seq<MemberView>,
    next: int,
    symbol: Seq<char>,
    lists: Seq<Seq<char>>,
    now: Seq<char>,
    other: Seq<char>,
    list: Seq<char>,
)
    ensures
        on_list(put_on_all(members, next, symbol, lists, now).0, other, list) <==> (on_list(
            members,
            other,
            list,
        ) || other == symbol && lists.contains(list)),
    decreases lists.len(),
{
    if lists.len() > 0 {
        let less = lists.drop_last();
        lemma_put_on_all(members, next, symbol, less, now, other, list);
        let before = put_on_all(members, next, symbol, less, now);
        let after = put_on_all(members, next, symbol, lists, now).0;
        lemma_put_on(before.0, before.1 as i64, symbol, lists.last(), now);
        if lists.contains(list) && !less.contains(list) {
            let i = choose|i: int| 0 <= i < lists.len() && lists[i] == list;
            assert(i == lists.len() - 1) by {
                if i < lists.len() - 1 {
                    assert(less[i] == list);
                }
            }
        }
        if less.contains(list) {
            let i = choose|i: int| 0 <= i < less.len() && less[i] == list;
            assert(lists[i] == list);
        }
        if on_list(before.0, other, list) {
            let i = choose|i: int|
                0 <= i < before.0.len() && (#[trigger] before.0[i]).symbol == other
                    && before.0[i].list_name == list;
            assert(after[i].symbol == other);
        }
        if on_list(after, other, list) && !on_list(before.0, other, list) {
            let i = choose|i: int|
                0 <= i < after.len() && (#[trigger] after[i]).symbol == other
                    && after[i].list_name == list;
            if i < before.0.len() {
                assert(before.0[i].symbol == other);
            }
            assert(lists[lists.len() - 1] == list);
        }
    }
}

// ---------------------------------------------------------------------------
// Reading
// ---------------------------------------------------------------------------

/// The lists of all memberships.
pub open spec fn list_names(members: Seq<MemberView>) -> Seq<Seq<char>> {
    Seq::new(members.len(), |i: int| members[i].list_name)
}

/// The lists, each once, in their order.
pub fn load_watchlist_lists(w: &Watchlist) -> (r: Vec<String>)
    ensures
        strictly_ascending(string_views(r@)),
        string_views(r@).to_set() == list_names(w.members()).to_set(),
{
    let mut names: Vec<String> = Vec::new();
    let mut i: usize = 0;
    while i < w.memberships.len()
        invariant
            i <= w.memberships.len(),
            names@.len() == i,
            forall|j: int| 0 <= j < i ==> (#[trigger] names@[j])@ == w.memberships@[j].list_name@,
        decreases w.memberships.len() - i,
    {
        names.push(w.memberships[i].list_name.clone());
        i += 1;
    }
    assert(string_views(names@) =~= list_names(w.members()));
    distinct_sorted(&names)
}

/// One line of the watchlist: a symbol on a list.
#[derive(Debug)]
pub struct WatchRow {
    pub id: i64,
    pub symbol: String,
    pub list_name: String,
    pub added_at: String,
    pub notes: Option<String>,
    pub breakthrough_price: Option<Number>,
    pub stop_loss_price: Option<Number>,
}

/// One line of the watchlist.
pub struct WatchRowView {
    pub member: MemberView,
    pub notes: Option<Seq<char>>,
    pub breakthrough_price: Option<Number>,
    pub stop_loss_price: Option<Number>,
}

impl View for WatchRow {
    type V = WatchRowView;

    open spec fn view(&self) -> WatchRowView {
        WatchRowView {
            member: MemberView {
                id: self.id,
                symbol: self.symbol@,
                list_name: self.list_name@,
                added_at: self.added_at@,
            },
            notes: option_view(self.notes),
            breakthrough_price: self.breakthrough_price,
            stop_loss_price: self.stop_loss_price,
        }
    }
}

/// The views of some lines.
pub open spec fn watch_row_views(rows: Seq<WatchRow>) -> Seq<WatchRowView> {
    Seq::new(rows.len(), |i: int| rows[i]@)
}

impl Ranked for WatchRow {
    open spec fn precedes(self, other: Self) -> bool {
        text_before(self.list_name@, other.list_name@) || self.list_name@ == other.list_name@
            && text_before(self.symbol@, other.symbol@)
    }

    proof fn precedes_is_irreflexive(a: Self) {
        text_order_is_irreflexive(a.list_name@);
        text_order_is_irreflexive(a.symbol@);
    }

    proof fn precedes_is_transitive(a: Self, b: Self, c: Self) {
        if text_before(a.list_name@, b.list_name@) && text_before(b.list_name@, c.list_name@) {
            text_order_is_transitive(a.list_name@, b.list_name@, c.list_name@);
        }
        if text_before(a.symbol@, b.symbol@) && text_before(b.symbol@, c.symbol@) {
            text_order_is_transitive(a.symbol@, b.symbol@, c.symbol@);
        }
    }

    proof fn ties_are_transitive(a: Self, b: Self, c: Self) {
        text_order_is_total(a.list_name@, b.list_name@);
        text_order_is_total(b.list_name@, c.list_name@);
        text_order_is_total(a.symbol@, b.symbol@);
        text_order_is_total(b.symbol@, c.symbol@);
        text_order_is_irreflexive(a.list_name@);
        text_order_is_irreflexive(a.symbol@);
        if text_before(b.list_name@, a.list_name@) && text_before(a.list_name@, c.list_name@) {
            text_order_is_transitive(b.list_name@, a.list_name@, c.list_name@);
        }
        if text_before(a.list_name@, c.list_name@) && text_before(c.list_name@, b.list_name@) {
            text_order_is_transitive(a.list_name@, c.list_name@, b.list_name@);
        }
        if text_before(c.list_name@, b.list_name@) && text_before(b.list_name@, a.list_name@) {
            text_order_is_transitive(c.list_name@, b.list_name@, a.list_name@);
            if text_before(a.list_name@, c.list_name@) {
                text_order_is_transitive(a.list_name@, c.list_name@, a.list_name@);
            }
        }
        if text_before(b.symbol@, a.symbol@) && text_before(a.symbol@, c.symbol@) {
            text_order_is_transitive(b.symbol@, a.symbol@, c.symbol@);
        }
        if text_before(a.symbol@, c.symbol@) && text_before(c.symbol@, b.symbol@) {
            text_order_is_transitive(a.symbol@, c.symbol@, b.symbol@);
        }
    }

    fn goes_before(&self, other: &Self) -> (r: bool) {
        if is_before(self.list_name.as_str(), other.list_name.as_str()) {
            true
        } else {
            same(self.list_name.as_str(), other.list_name.as_str()) && is_before(
                self.symbol.as_str(),
                other.symbol.as_str(),
            )
        }
    }
}

/// The lines of the memberships on the list, or on any list.
pub open spec fn lines_of(
    data: Map<Seq<char>, DataView>,
    members: Seq<MemberView>,
    list: Option<Seq<char>>,
) -> Seq<WatchRowView>
    decreases members.len(),
{
    if members.len() == 0 {
        seq![]
    } else {
        let m = members.last();
        let earlier = lines_of(data, members.drop_last(), list);
        if data.contains_key(m.symbol) && (list is Some ==> m.list_name == list->0) {
            let d = data[m.symbol];
            earlier.push(
                WatchRowView {
                    member: m,
                    notes: d.notes,
                    breakthrough_price: d.breakthrough_price,
                    stop_loss_price: d.stop_loss_price,
                },
            )
        } else {
            earlier
        }
    }
}

/// The lines of the watchlist, or of one list, by list and symbol.
pub fn load_watchlist_symbols(w: &Watchlist, list: Option<&str>) -> (r: Vec<WatchRow>)
    ensures
        exists|unsorted: Seq<WatchRow>| #[trigger]
            are_ranked(r@, unsorted) && watch_row_views(unsorted) == lines_of(
                w.data(),
                w.members(),
                option_slice_view(list),
            ),
{
    let ghost data = w.data();
    let ghost members = w.members();
    let mut out: Vec<WatchRow> = Vec::new();
    let mut i: usize = 0;
    assert(watch_row_views(out@) =~= seq![]);
    while i < w.memberships.len()
        invariant
            i <= w.memberships.len(),
            data == w.data(),
            members == w.members(),
            watch_row_views(out@) == lines_of(
                data,
                members.take(i as int),
                option_slice_view(list),
            ),
        decreases w.memberships.len() - i,
    {
        let ghost before = watch_row_views(out@);
        let m = &w.memberships[i];
        proof {
            assert(members.take(i + 1).drop_last() =~= members.take(i as int));
            assert(members.take(i + 1).last() == m@);
        }
        let wanted = match list {
            Some(l) => same(m.list_name.as_str(), l),
            None => true,
        };
        if wanted {
            match w.symbols.get(m.symbol.as_str()) {
                Some(d) => {
                    assert(data[m.symbol@] == d@);
                    let row = WatchRow {
                        id: m.id,
                        symbol: m.symbol.clone(),
                        list_name: m.list_name.clone(),
                        added_at: m.added_at.clone(),
                        notes: clone_notes(&d.notes),
                        breakthrough_price: d.breakthrough_price,
                        stop_loss_price: d.stop_loss_price,
                    };
                    let ghost v = row@;
                    out.push(row);
                    assert(watch_row_views(out@) =~= before.push(v));
                },
                None => {},
            }
        }
        i += 1;
    }
    assert(members.take(w.memberships.len() as int) =~= members);
    let ghost unsorted = out@;
    let r = sorted(out);
    assert(are_ranked(r@, unsorted));
    r
}

// ---------------------------------------------------------------------------
// What is watched
// ---------------------------------------------------------------------------

/// Adding a symbol keeps what was stored of it and is not sent anew; a change of
/// its data keeps what is not mentioned, and clears what is sent as nothing.
pub proof fn what_is_not_sent_stays(
    before: DataView,
    notes: Option<Seq<char>>,
    breakthrough: Option<Number>,
    stop: Option<Number>,
    now: Seq<char>,
)
    ensures
        ({
            let added = added_data(Some(before), notes, breakthrough, stop, now);
            &&& notes is Some ==> added.notes == notes
            &&& notes is None ==> added.notes == before.notes
            &&& breakthrough is Some ==> added.breakthrough_price == breakthrough
            &&& breakthrough is None ==> added.breakthrough_price == before.breakthrough_price
            &&& stop is Some ==> added.stop_loss_price == stop
            &&& stop is None ==> added.stop_loss_price == before.stop_loss_price
            &&& added.updated_at == now
        }),
        ({
            let first = added_data(None, notes, breakthrough, stop, now);
            first.notes == notes && first.breakthrough_price == breakthrough
                && first.stop_loss_price == stop && first.updated_at == now
        }),
        changed_data(before, None, None, None) == before,
        ({
            let c = changed_data(before, Some(notes), Some(breakthrough), Some(stop));
            c.notes == notes && c.breakthrough_price == breakthrough && c.stop_loss_price == stop
                && c.updated_at == before.updated_at
        }),
{
}

/// A symbol is put on a list once: a symbol that stands on it stays as it is, any
/// other comes behind, and the others stay.
pub proof fn a_symbol_is_put_on_a_list_once(
    members: Seq<MemberView>,
    id: i64,
    symbol: Seq<char>,
    list: Seq<char>,
    now: Seq<char>,
)
    ensures
        ({
            let after = put_on(members, id, symbol, list, now);
            let there = exists|i: int|
                0 <= i < members.len() && (#[trigger] members[i]).symbol == symbol
                    && members[i].list_name == list;
            &&& there ==> after == members
            &&& !there ==> after.len() == members.len() + 1 && after.drop_last() == members
                && after.last().symbol == symbol && after.last().list_name == list
                && after.last().id == id && after.last().added_at == now
        }),
{
    let after = put_on(members, id, symbol, list, now);
    if after.len() > members.len() {
        assert(after.drop_last() =~= members);
    }
}

/// A symbol that is added needs a name, which is stored trimmed and in upper case,
/// and goes on the list `Default` where none is named.
pub proof fn what_an_addition_needs(symbol: Seq<char>, list: Option<Seq<char>>)
    ensures
        trim_text(symbol).len() == 0 ==> addition(symbol, list) == Err::<
            (Seq<char>, Seq<char>),
            (Reason, Seq<char>),
        >((Reason::BadRequest, "Symbol is required"@)),
        trim_text(symbol).len() > 0 ==> (addition(symbol, list) matches Ok(p) && p.0
            == normal_symbol(trim_text(symbol)) && (list is Some ==> p.1 == list->0) && (
        list is None ==> p.1 == "Default"@)),
{
}

/// A list is renamed where both names are there and differ and some symbol stands
/// on it; where they do not differ, nothing is done.
pub proof fn when_a_list_is_renamed(old_name: Seq<char>, new_name: Seq<char>, touched: int)
    ensures
        ({
            let from = trim_text(old_name);
            let to = trim_text(new_name);
            let verdict = rename_verdict(old_name, new_name, touched);
            &&& from.len() == 0 || to.len() == 0 ==> verdict == Err::<bool, (Reason, Seq<char>)>(
                (Reason::BadRequest, "Both old and new list names are required"@),
            )
            &&& from.len() > 0 && from == to ==> verdict == Ok::<bool, (Reason, Seq<char>)>(false)
            &&& from.len() > 0 && to.len() > 0 && from != to && touched > 0 ==> verdict == Ok::<
                bool,
                (Reason, Seq<char>),
            >(true)
            &&& from.len() > 0 && to.len() > 0 && from != to && touched <= 0 ==> verdict == Err::<
                bool,
                (Reason, Seq<char>),
            >((Reason::NotFound, "List '"@ + from + "' not found"@))
        }),
{
}

/// Watched symbols come in the order of their lists, and on a list in that of
/// their names.
pub proof fn rows_come_by_list_and_symbol(a: WatchRow, b: WatchRow)
    ensures
        text_before(a.list_name@, b.list_name@) ==> a.precedes(b),
        a.list_name@ == b.list_name@ && text_before(a.symbol@, b.symbol@) ==> a.precedes(b),
        a.precedes(b) ==> text_before(a.list_name@, b.list_name@) || a.list_name@ == b.list_name@,
{
}

/// The lists that are named are those that are not blank, trimmed, in their order.
pub proof fn a_list_that_is_not_blank_is_named(lists: Seq<Seq<char>>, list: Seq<char>)
    ensures
        trim_text(list).len() == 0 ==> named_lists(lists.push(list)) == named_lists(lists),
        trim_text(list).len() > 0 ==> named_lists(lists.push(list)) == named_lists(lists).push(
            trim_text(list),
        ),
{
    assert(lists.push(list).drop_last() =~= lists);
}

/// An entry is found by its number, the first of its number first. Without it the
/// others stay, in their order; without a symbol, those of other symbols do.
pub proof fn what_is_taken_off(members: Seq<MemberView>, m: MemberView, id: i64, symbol: Seq<char>)
    ensures
        m.id == id ==> without_member(members.push(m), id) == without_member(members, id),
        m.id != id ==> without_member(members.push(m), id) == without_member(members, id).push(m),
        m.symbol == symbol ==> of_others(members.push(m), symbol) == of_others(members, symbol),
        m.symbol != symbol ==> of_others(members.push(m), symbol) == of_others(members, symbol).push(
            m,
        ),
        without_member(Seq::empty(), id) == Seq::<MemberView>::empty(),
        of_others(Seq::empty(), symbol) == Seq::<MemberView>::empty(),
{
    reveal(Seq::filter);
    assert(members.push(m).drop_last() =~= members);
}

/// The entry of a number is the first that has it.
pub proof fn an_entry_is_found_by_its_number(members: Seq<MemberView>, id: i64, from: int, i: int)
    requires
        0 <= from <= i <= members.len(),
        forall|j: int| from <= j < i ==> (#[trigger] members[j]).id != id,
        i < members.len() ==> members[i].id == id,
    ensures
        i < members.len() ==> member_from(members, id, from) == Some(members[i]),
        i == members.len() ==> member_from(members, id, from) is None,
    decreases i - from,
{
    if from < i {
        an_entry_is_found_by_its_number(members, id, from + 1, i);
    }
}

/// A list is as long as there are entries of its name, and an entry is shown on
/// the list asked for with what is known of its symbol.
pub proof fn what_a_list_shows(
    data: Map<Seq<char>, DataView>,
    members: Seq<MemberView>,
    m: MemberView,
    list: Option<Seq<char>>,
    name: Seq<char>,
)
    ensures
        list_size(Seq::empty(), name) == 0,
        m.list_name == name ==> list_size(members.push(m), name) == list_size(members, name) + 1,
        m.list_name != name ==> list_size(members.push(m), name) == list_size(members, name),
        lines_of(data, Seq::empty(), list) == Seq::<WatchRowView>::empty(),
        !data.contains_key(m.symbol) || (list is Some && list->0 != m.list_name) ==> lines_of(
            data,
            members.push(m),
            list,
        ) == lines_of(data, members, list),
        data.contains_key(m.symbol) && (list is None || list->0 == m.list_name) ==> ({
            let lines = lines_of(data, members.push(m), list);
            &&& lines.len() == lines_of(data, members, list).len() + 1
            &&& lines.drop_last() == lines_of(data, members, list)
            &&& lines.last().member == m
            &&& lines.last().notes == data[m.symbol].notes
            &&& lines.last().breakthrough_price == data[m.symbol].breakthrough_price
            &&& lines.last().stop_loss_price == data[m.symbol].stop_loss_price
        }),
{
    assert(members.push(m).drop_last() =~= members);
    if data.contains_key(m.symbol) && (list is None || list->0 == m.list_name) {
        assert(lines_of(data, members.push(m), list).drop_last() =~= lines_of(data, members, list));
    }
}

} // verus!
