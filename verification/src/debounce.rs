//! Not asking again too soon.
use vstd::prelude::*;
use crate::text::same;

verus! {

broadcast use vstd::string::group_string_axioms;

// ---------------------------------------------------------------------------
// Which histories were checked
// ---------------------------------------------------------------------------

/// For how many seconds a symbol's history is not checked again.
pub const HISTORY_CHECK_TTL_SECS: u64 = 600;

/// How many checks are remembered before the old ones are forgotten.
pub const HISTORY_CHECK_CAPACITY: usize = 2048;

/// When each symbol's history was last checked, in seconds of a clock that
/// never goes back.
#[derive(Debug)]
pub struct HistoryChecks {
    entries: Vec<(String, u64)>,
}

/// The first entry of a symbol, from entry `i` on.
spec fn find_from(entries: Seq<(String, u64)>, symbol: Seq<char>, i: int) -> Option<u64>
    decreases entries.len() - i,
{
    if i < 0 || i >= entries.len() {
        None
    } else if entries[i].0@ == symbol {
        Some(entries[i].1)
    } else {
        find_from(entries, symbol, i + 1)
    }
}

/// Whether a check at `at` still counts at `now`.
pub open spec fn still_counts(at: u64, now: u64) -> bool {
    now - at < HISTORY_CHECK_TTL_SECS
}

impl HistoryChecks {
    /// When the symbol was last checked, where that is remembered.
    pub closed spec fn checked_at(&self, symbol: Seq<char>) -> Option<u64> {
        find_from(self.entries@, symbol, 0)
    }

    /// How many symbols are remembered.
    pub closed spec fn size(&self) -> nat {
        self.entries@.len()
    }

    /// No check is remembered.
    pub fn new() -> (r: HistoryChecks)
        ensures
            r.size() == 0,
            forall|s: Seq<char>| #[trigger] r.checked_at(s) is None,
    {
        HistoryChecks { entries: Vec::new() }
    }

    fn position(&self, symbol: &str) -> (r: Option<usize>)
        ensures
            match r {
                Some(i) => i < self.entries@.len() && self.entries@[i as int].0@ == symbol@
                    && self.checked_at(symbol@) == Some(self.entries@[i as int].1) && forall|
                    j: int,
                |
                    0 <= j < i ==> (#[trigger] self.entries@[j]).0@ != symbol@,
                None => self.checked_at(symbol@) is None && forall|j: int|
                    0 <= j < self.entries@.len() ==> (#[trigger] self.entries@[j]).0@ != symbol@,
            },
    {
        let mut i: usize = 0;
        while i < self.entries.len()
            invariant
                i <= self.entries@.len(),
                find_from(self.entries@, symbol@, 0) == find_from(
                    self.entries@,
                    symbol@,
                    i as int,
                ),
                forall|j: int| 0 <= j < i ==> (#[trigger] self.entries@[j]).0@ != symbol@,
            decreases self.entries.len() - i,
        {
            if same(self.entries[i].0.as_str(), symbol) {
                return Some(i);
            }
            i += 1;
        }
        None
    }
}

/// What is remembered of a symbol after a check of `checked` at `now`, `before`
/// being what was remembered of it: the check itself; of other symbols what was
/// remembered, but where too many are, only what still counts.
pub open spec fn remembered(
    before: Option<u64>,
    is_checked: bool,
    now: u64,
    too_many: bool,
) -> Option<u64> {
    if is_checked {
        Some(now)
    } else if too_many && before is Some && !still_counts(before->0, now) {
        None
    } else {
        before
    }
}

/// Whether the symbol's history was checked so recently that it is not checked
/// again.
pub fn history_recently_checked(checks: &HistoryChecks, symbol: &str, now: u64) -> (r: bool)
    ensures
        r == (checks.checked_at(symbol@) matches Some(at) && still_counts(at, now)),
{
    match checks.position(symbol) {
        Some(i) => {
            let at: u64 = checks.entries[i].1;
            at >= now || now - at < HISTORY_CHECK_TTL_SECS
        },
        None => false,
    }
}

/// Whether each symbol stands among the entries at most once.
spec fn distinct(entries: Seq<(String, u64)>) -> bool {
    forall|i: int, j: int|
        0 <= i < entries.len() && 0 <= j < entries.len() && (#[trigger] entries[i]).0@ == (
        #[trigger] entries[j]).0@ ==> i == j
}

impl HistoryChecks {
    #[verifier::type_invariant]
    spec fn well_formed(&self) -> bool {
        distinct(self.entries@)
    }
}

proof fn lemma_find(entries: Seq<(String, u64)>, symbol: Seq<char>, i: int, k: int)
    requires
        0 <= i <= k < entries.len(),
        entries[k].0@ == symbol,
        forall|j: int| i <= j < k ==> (#[trigger] entries[j]).0@ != symbol,
    ensures
        find_from(entries, symbol, i) == Some(entries[k].1),
    decreases k - i,
{
    if i < k {
        assert(entries[i].0@ != symbol);
        lemma_find(entries, symbol, i + 1, k);
    }
}

proof fn lemma_find_none(entries: Seq<(String, u64)>, symbol: Seq<char>, i: int)
    requires
        0 <= i,
        forall|j: int| i <= j < entries.len() ==> (#[trigger] entries[j]).0@ != symbol,
    ensures
        find_from(entries, symbol, i) is None,
    decreases entries.len() - i,
{
    if i < entries.len() {
        assert(entries[i].0@ != symbol);
        lemma_find_none(entries, symbol, i + 1);
    }
}

/// What distinct entries hold of a symbol is what any of its entries says.
proof fn lemma_find_any(entries: Seq<(String, u64)>, symbol: Seq<char>, k: int)
    requires
        distinct(entries),
        0 <= k < entries.len(),
        entries[k].0@ == symbol,
    ensures
        find_from(entries, symbol, 0) == Some(entries[k].1),
{
    assert forall|j: int| 0 <= j < k implies (#[trigger] entries[j]).0@ != symbol by {
        if entries[j].0@ == symbol {
            assert(entries[j].0@ == entries[k].0@);
        }
    }
    lemma_find(entries, symbol, 0, k);
}

/// Whether there is no room to remember a check of the symbol too.
pub open spec fn overfull(checks: HistoryChecks, symbol: Seq<char>) -> bool {
    checks.size() + (if checks.checked_at(symbol) is Some {
        0int
    } else {
        1
    }) > HISTORY_CHECK_CAPACITY
}

/// Remembers that the symbol's history is checked at `now`. Where more symbols
/// are remembered than there is room for, those are forgotten whose check no
/// longer counts.
pub fn mark_history_checked(checks: &mut HistoryChecks, symbol: &str, now: u64)
    ensures
        forall|s: Seq<char>| #[trigger]
            final(checks).checked_at(s) == remembered(
                old(checks).checked_at(s),
                s == symbol@,
                now,
                overfull(*old(checks), symbol@),
            ),
        !overfull(*old(checks), symbol@) ==> final(checks).size() <= HISTORY_CHECK_CAPACITY,
        final(checks).size() <= old(checks).size() + 1,
{
    proof {
        use_type_invariant(&*checks);
    }
    let at = checks.position(symbol);
    let mut entries: Vec<(String, u64)> = Vec::new();
    let ghost before = checks.entries@;
    core::mem::swap(&mut entries, &mut checks.entries);
    match at {
        Some(i) => {
            let name = entries[i].0.clone();
            entries.set(i, (name, now));
        },
        None => {
            entries.push((symbol.to_owned(), now));
        },
    }
    let ghost marked = entries@;
    proof {
        assert(distinct(marked)) by {
            match at {
                Some(i) => {
                    assert forall|a: int, b: int|
                        0 <= a < marked.len() && 0 <= b < marked.len() && (#[trigger] marked[a]).0@
                            == (#[trigger] marked[b]).0@ implies a == b by {
                        assert(before[a].0@ == before[b].0@);
                    }
                },
                None => {
                    assert forall|a: int, b: int|
                        0 <= a < marked.len() && 0 <= b < marked.len() && (#[trigger] marked[a]).0@
                            == (#[trigger] marked[b]).0@ implies a == b by {
                        if a < before.len() && b < before.len() {
                            assert(before[a].0@ == before[b].0@);
                        } else if a < before.len() {
                            assert(before[a].0@ != symbol@);
                        } else if b < before.len() {
                            assert(before[b].0@ != symbol@);
                        }
                    }
                },
            }
        }
        assert forall|s: Seq<char>| #[trigger] find_from(marked, s, 0) == (if s == symbol@ {
            Some(now)
        } else {
            find_from(before, s, 0)
        }) by {
            lemma_marked(before, marked, symbol@, now, at, s);
        }
    }
    let too_many: bool = entries.len() > HISTORY_CHECK_CAPACITY;
    assert(too_many == overfull(*old(checks), symbol@));
    if !too_many {
        checks.entries = entries;
        assert forall|s: Seq<char>| #[trigger] checks.checked_at(s) == remembered(
            find_from(before, s, 0),
            s == symbol@,
            now,
            too_many,
        ) by {
            assert(find_from(marked, s, 0) == checks.checked_at(s));
        }
        return;
    }
    let mut kept: Vec<(String, u64)> = Vec::new();
    let mut k: usize = 0;
    while k < entries.len()
        invariant
            k <= entries.len(),
            entries@ == marked,
            distinct(marked),
            distinct(kept@),
            kept@.len() <= k,
            forall|j: int|
                0 <= j < kept@.len() ==> exists|m: int|
                    0 <= m < k && marked[m].0@ == (#[trigger] kept@[j]).0@ && marked[m].1
                        == kept@[j].1 && still_counts(kept@[j].1, now),
            forall|m: int|
                0 <= m < k && still_counts((#[trigger] marked[m]).1, now) ==> exists|j: int|
                    0 <= j < kept@.len() && (#[trigger] kept@[j]).0@ == marked[m].0@
                        && kept@[j].1 == marked[m].1,
        decreases entries.len() - k,
    {
        let at_k: u64 = entries[k].1;
        let ghost old_kept = kept@;
        if at_k >= now || now - at_k < HISTORY_CHECK_TTL_SECS {
            kept.push((entries[k].0.clone(), at_k));
            proof {
                assert(kept@[old_kept.len() as int].0@ == marked[k as int].0@);
                assert forall|a: int, b: int|
                    0 <= a < kept@.len() && 0 <= b < kept@.len() && (#[trigger] kept@[a]).0@ == (
                    #[trigger] kept@[b]).0@ implies a == b by {
                    if a < old_kept.len() && b < old_kept.len() {
                        assert(old_kept[a].0@ == old_kept[b].0@);
                    } else if a < old_kept.len() {
                        let m = choose|m: int|
                            0 <= m < k && marked[m].0@ == old_kept[a].0@ && marked[m].1
                                == old_kept[a].1 && still_counts(old_kept[a].1, now);
                        assert(marked[m].0@ == marked[k as int].0@);
                    } else if b < old_kept.len() {
                        let m = choose|m: int|
                            0 <= m < k && marked[m].0@ == old_kept[b].0@ && marked[m].1
                                == old_kept[b].1 && still_counts(old_kept[b].1, now);
                        assert(marked[m].0@ == marked[k as int].0@);
                    }
                }
                assert forall|j: int| 0 <= j < kept@.len() implies exists|m: int|
                    0 <= m < k + 1 && marked[m].0@ == (#[trigger] kept@[j]).0@ && marked[m].1
                        == kept@[j].1 && still_counts(kept@[j].1, now) by {
                    if j < old_kept.len() {
                        let m = choose|m: int|
                            0 <= m < k && marked[m].0@ == old_kept[j].0@ && marked[m].1
                                == old_kept[j].1 && still_counts(old_kept[j].1, now);
                        assert(marked[m].0@ == kept@[j].0@);
                    } else {
                        assert(marked[k as int].0@ == kept@[j].0@);
                    }
                }
                assert forall|m: int|
                    0 <= m < k + 1 && still_counts((#[trigger] marked[m]).1, now) implies exists|
                    j: int,
                |
                    0 <= j < kept@.len() && (#[trigger] kept@[j]).0@ == marked[m].0@
                        && kept@[j].1 == marked[m].1 by {
                    if m < k {
                        let j = choose|j: int|
                            0 <= j < old_kept.len() && (#[trigger] old_kept[j]).0@ == marked[m].0@
                                && old_kept[j].1 == marked[m].1;
                        assert(kept@[j].0@ == marked[m].0@);
                    } else {
                        assert(kept@[old_kept.len() as int].0@ == marked[m].0@);
                    }
                }
            }
        }
        k += 1;
    }
    proof {
        assert forall|s: Seq<char>| #[trigger] find_from(kept@, s, 0) == remembered(
            find_from(before, s, 0),
            s == symbol@,
            now,
            true,
        ) by {
            lemma_kept(marked, kept@, now, s);
            assert(find_from(marked, s, 0) == (if s == symbol@ {
                Some(now)
            } else {
                find_from(before, s, 0)
            }));
        }
    }
    checks.entries = kept;
    assert forall|s: Seq<char>| #[trigger] checks.checked_at(s) == remembered(
        find_from(before, s, 0),
        s == symbol@,
        now,
        too_many,
    ) by {
        assert(find_from(checks.entries@, s, 0) == checks.checked_at(s));
    }
}

proof fn lemma_marked(
    before: Seq<(String, u64)>,
    marked: Seq<(String, u64)>,
    symbol: Seq<char>,
    now: u64,
    at: Option<usize>,
    s: Seq<char>,
)
    requires
        distinct(before),
        distinct(marked),
        match at {
            Some(i) => i < before.len() && before[i as int].0@ == symbol && marked.len()
                == before.len() && marked[i as int].0@ == symbol && marked[i as int].1 == now
                && forall|j: int|
                0 <= j < before.len() && j != i ==> #[trigger] marked[j] == before[j],
            None => marked.len() == before.len() + 1 && marked[before.len() as int].0@ == symbol
                && marked[before.len() as int].1 == now && (forall|j: int|
                0 <= j < before.len() ==> #[trigger] marked[j] == before[j]),
        },
    ensures
        find_from(marked, s, 0) == (if s == symbol {
            Some(now)
        } else {
            find_from(before, s, 0)
        }),
{
    if s == symbol {
        match at {
            Some(i) => {
                lemma_find_any(marked, s, i as int);
            },
            None => {
                lemma_find_any(marked, s, before.len() as int);
            },
        }
    } else if exists|j: int| 0 <= j < before.len() && (#[trigger] before[j]).0@ == s {
        let j = choose|j: int| 0 <= j < before.len() && (#[trigger] before[j]).0@ == s;
        lemma_find_any(before, s, j);
        assert(marked[j] == before[j]);
        lemma_find_any(marked, s, j);
    } else {
        lemma_find_none(before, s, 0);
        assert forall|j: int| 0 <= j < marked.len() implies (#[trigger] marked[j]).0@ != s by {
            if j < before.len() {
                assert(before[j].0@ != s);
                match at {
                    Some(i) => {
                        if j != i {
                            assert(marked[j] == before[j]);
                        }
                    },
                    None => {
                        assert(marked[j] == before[j]);
                    },
                }
            }
        }
        lemma_find_none(marked, s, 0);
    }
}

proof fn lemma_kept(
    marked: Seq<(String, u64)>,
    kept: Seq<(String, u64)>,
    now: u64,
    s: Seq<char>,
)
    requires
        distinct(marked),
        distinct(kept),
        forall|j: int|
            0 <= j < kept.len() ==> exists|m: int|
                0 <= m < marked.len() && marked[m].0@ == (#[trigger] kept[j]).0@ && marked[m].1
                    == kept[j].1 && still_counts(kept[j].1, now),
        forall|m: int|
            0 <= m < marked.len() && still_counts((#[trigger] marked[m]).1, now) ==> exists|j: int|
                0 <= j < kept.len() && (#[trigger] kept[j]).0@ == marked[m].0@ && kept[j].1
                    == marked[m].1,
    ensures
        find_from(kept, s, 0) == (match find_from(marked, s, 0) {
            Some(at) => if still_counts(at, now) {
                Some(at)
            } else {
                None
            },
            None => None,
        }),
{
    if exists|m: int| 0 <= m < marked.len() && (#[trigger] marked[m]).0@ == s {
        let m = choose|m: int| 0 <= m < marked.len() && (#[trigger] marked[m]).0@ == s;
        lemma_find_any(marked, s, m);
        if still_counts(marked[m].1, now) {
            let j = choose|j: int|
                0 <= j < kept.len() && (#[trigger] kept[j]).0@ == marked[m].0@ && kept[j].1
                    == marked[m].1;
            lemma_find_any(kept, s, j);
        } else {
            assert forall|j: int| 0 <= j < kept.len() implies (#[trigger] kept[j]).0@ != s by {
                if kept[j].0@ == s {
                    let n = choose|n: int|
                        0 <= n < marked.len() && marked[n].0@ == kept[j].0@ && marked[n].1
                            == kept[j].1 && still_counts(kept[j].1, now);
                    assert(marked[n].0@ == marked[m].0@);
                }
            }
            lemma_find_none(kept, s, 0);
        }
    } else {
        lemma_find_none(marked, s, 0);
        assert forall|j: int| 0 <= j < kept.len() implies (#[trigger] kept[j]).0@ != s by {
            let n = choose|n: int|
                0 <= n < marked.len() && marked[n].0@ == kept[j].0@ && marked[n].1 == kept[j].1
                    && still_counts(kept[j].1, now);
            assert(marked[n].0@ == kept[j].0@);
        }
        lemma_find_none(kept, s, 0);
    }
}

/// A check counts from the moment it is made, and no longer once its time is up.
pub proof fn a_check_counts_until_its_time_is_up(at: u64, now: u64)
    requires
        at <= now,
    ensures
        still_counts(at, at),
        still_counts(at, now) <==> now < at + HISTORY_CHECK_TTL_SECS,
{
}

/// A check counts for ten minutes; another check of the symbol starts them anew.
/// Checks of other symbols stay, but that those whose time is up are forgotten
/// once there are more than 2048.
pub proof fn a_check_counts_for_ten_minutes(before: Option<u64>, at: u64, now: u64, too_many: bool)
    ensures
        at <= now ==> (still_counts(at, now) <==> now - at < 600),
        remembered(before, true, now, too_many) == Some(now),
        !too_many ==> remembered(before, false, now, too_many) == before,
        before is Some && before->0 <= now && now - before->0 < 600 ==> remembered(
            before,
            false,
            now,
            too_many,
        ) == before,
        before is Some && before->0 <= now && now - before->0 >= 600 && too_many ==> remembered(
            before,
            false,
            now,
            too_many,
        ) is None,
        HISTORY_CHECK_CAPACITY == 2048,
{
}

} // verus!
