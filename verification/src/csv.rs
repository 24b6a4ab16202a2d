//! The ledger of a cash account as a file of comma-separated values.
use vstd::prelude::*;
use crate::exact::{exact, is_exact, lemma_exact, unrounded, Reading};
use crate::number::{
    evaluate, is_calculator, is_renderer, num, number, sum, worth, write_number, written, Decimals,
    Formula, Number, ZERO_BITS,
};
use crate::text::{
    chars_of, is_blank, join, join_text, joined, joined3, joined5, lower_case, split, split_text,
    to_lower, trimmed, views,
};

verus! {

broadcast use vstd::string::group_string_axioms;

// ---------------------------------------------------------------------------
// One field
// ---------------------------------------------------------------------------

/// Whether a character has a meaning of its own in the file.
pub open spec fn is_special(c: char) -> bool {
    c == ',' || c == '"' || c == '\n' || c == '\r'
}

/// Whether a text has such a character.
pub open spec fn has_special(s: Seq<char>) -> bool {
    exists|i: int| 0 <= i < s.len() && is_special(#[trigger] s[i])
}

/// The text with every quotation mark twice.
pub open spec fn doubled(s: Seq<char>) -> Seq<char>
    decreases s.len(),
{
    if s.len() == 0 {
        seq![]
    } else if s.last() == '"' {
        doubled(s.drop_last()).push('"').push('"')
    } else {
        doubled(s.drop_last()).push(s.last())
    }
}

/// A text as a field: between quotation marks where it needs them.
pub open spec fn field_text(s: Seq<char>) -> Seq<char> {
    if has_special(s) {
        seq!['"'] + doubled(s) + seq!['"']
    } else {
        s
    }
}

/// A text as a field. It is put between quotation marks only where it needs
/// them, and then those within it are doubled. Notes are free text and often
/// hold commas, which would otherwise shift every field that follows.
pub fn csv_field(value: &str) -> (r: String)
    ensures
        r@ == field_text(value@),
{
    let cs = chars_of(value);
    let mut special = false;
    let mut i: usize = 0;
    while i < cs.len()
        invariant
            cs@ == value@,
            i <= cs.len(),
            special == (exists|j: int| 0 <= j < i && is_special(#[trigger] cs@[j])),
        decreases cs.len() - i,
    {
        let c = cs[i];
        if c == ',' || c == '"' || c == '\n' || c == '\r' {
            assert(is_special(cs@[i as int]));
            special = true;
        }
        i += 1;
    }
    if !special {
        return value.to_owned();
    }
    let mut out = String::new();
    out.push('"');
    let mut k: usize = 0;
    assert(out@ =~= seq!['"'] + doubled(cs@.take(0)));
    while k < cs.len()
        invariant
            cs@ == value@,
            k <= cs.len(),
            out@ == seq!['"'] + doubled(cs@.take(k as int)),
        decreases cs.len() - k,
    {
        let ghost before = out@;
        proof {
            assert(cs@.take(k + 1).drop_last() =~= cs@.take(k as int));
            assert(cs@.take(k + 1).last() == cs@[k as int]);
        }
        if cs[k] == '"' {
            out.push('"');
        }
        out.push(cs[k]);
        assert(out@ =~= seq!['"'] + doubled(cs@.take(k + 1)));
        k += 1;
    }
    assert(cs@.take(cs.len() as int) =~= cs@);
    out.push('"');
    assert(out@ =~= seq!['"'] + doubled(value@) + seq!['"']);
    out
}

// ---------------------------------------------------------------------------
// The file
// ---------------------------------------------------------------------------

/// An entry of the ledger, with the transaction it belongs to.
#[derive(Debug)]
pub struct CsvRow {
    pub date: String,
    pub kind: String,
    pub amount: Number,
    pub notes: Option<String>,
    pub transfer_group_id: Option<String>,
    pub symbol: Option<String>,
    pub transaction_type: Option<String>,
}

/// What an entry is described by: its notes, or else what it belongs to.
pub open spec fn description(row: CsvRow) -> Seq<char> {
    if row.notes is Some && !is_blank(row.notes->0@) {
        row.notes->0@
    } else if row.transfer_group_id is Some {
        "Transfer between accounts"@
    } else {
        match (row.symbol, row.transaction_type) {
            (Some(s), Some(t)) => t@ + " "@ + s@,
            _ => seq![],
        }
    }
}

/// The balance after some entries.
pub open spec fn running_balance<F: Fn(Formula) -> Number>(calc: F, rows: Seq<CsvRow>) -> Number
    decreases rows.len(),
{
    if rows.len() == 0 {
        number(ZERO_BITS)
    } else {
        worth(
            calc,
            sum(num(running_balance(calc, rows.drop_last())), num(rows.last().amount)),
        )
    }
}

/// The line of an entry, `balance` being the balance after it.
pub open spec fn line_text<R: Fn(Number, Decimals) -> String>(
    render: R,
    row: CsvRow,
    balance: Number,
) -> Seq<char> {
    field_text(row.date@) + ","@ + field_text(row.kind@) + ","@ + field_text(description(row))
        + ","@ + written(render, row.amount, Decimals::Fixed(2)) + ","@ + written(
        render,
        balance,
        Decimals::Fixed(2),
    ) + "\n"@
}

/// The line above all entries.
pub open spec fn header_text(currency: Seq<char>) -> Seq<char> {
    "Date,Transaction,Description,Amount ("@ + currency + "),Balance ("@ + currency + ")\n"@
}

/// The file: the header, and the entries in their order with the balance after
/// each.
pub open spec fn csv_text<F: Fn(Formula) -> Number, R: Fn(Number, Decimals) -> String>(
    calc: F,
    render: R,
    currency: Seq<char>,
    rows: Seq<CsvRow>,
) -> Seq<char>
    decreases rows.len(),
{
    if rows.len() == 0 {
        header_text(currency)
    } else {
        csv_text(calc, render, currency, rows.drop_last()) + line_text(
            render,
            rows.last(),
            running_balance(calc, rows),
        )
    }
}

fn describe(row: &CsvRow) -> (r: String)
    ensures
        r@ == description(*row),
{
    match &row.notes {
        Some(n) => {
            if !trimmed(n.as_str()).is_empty() {
                return n.clone();
            }
        },
        None => {},
    }
    if row.transfer_group_id.is_some() {
        return "Transfer between accounts".to_owned();
    }
    match (&row.symbol, &row.transaction_type) {
        (Some(s), Some(t)) => joined3(t.as_str(), " ", s.as_str()),
        _ => String::new(),
    }
}

fn line<R: Fn(Number, Decimals) -> String>(row: &CsvRow, balance: Number, render: &R) -> (r: String)
    requires
        is_renderer(*render),
    ensures
        r@ == line_text(*render, *row, balance),
{
    let amount = write_number(render, row.amount, Decimals::Fixed(2));
    let total = write_number(render, balance, Decimals::Fixed(2));
    let head = joined5(
        csv_field(row.date.as_str()).as_str(),
        ",",
        csv_field(row.kind.as_str()).as_str(),
        ",",
        csv_field(describe(row).as_str()).as_str(),
    );
    let middle = joined5(head.as_str(), ",", amount.as_str(), ",", total.as_str());
    joined(middle.as_str(), "\n")
}

/// The ledger of an account as a file: its entries in their order, with the
/// balance after each. The balance only means something in that order, so the
/// order is settled here.
pub fn cash_account_csv<F: Fn(Formula) -> Number, R: Fn(Number, Decimals) -> String>(
    currency: &str,
    rows: &Vec<CsvRow>,
    calc: &F,
    render: &R,
) -> (r: String)
    requires
        is_calculator(*calc),
        is_renderer(*render),
    ensures
        r@ == csv_text(*calc, *render, currency@, rows@),
{
    let mut out = joined5(
        "Date,Transaction,Description,Amount (",
        currency,
        "),Balance (",
        currency,
        ")\n",
    );
    let mut balance = Number { bits: ZERO_BITS };
    let mut i: usize = 0;
    while i < rows.len()
        invariant
            i <= rows.len(),
            is_calculator(*calc),
            is_renderer(*render),
            balance == running_balance(*calc, rows@.take(i as int)),
            out@ == csv_text(*calc, *render, currency@, rows@.take(i as int)),
        decreases rows.len() - i,
    {
        assert(rows@.take(i + 1).drop_last() =~= rows@.take(i as int));
        balance = evaluate(calc, Formula::of(balance).plus(Formula::of(rows[i].amount)));
        let text = line(&rows[i], balance, render);
        out = joined(out.as_str(), text.as_str());
        i += 1;
    }
    assert(rows@.take(rows.len() as int) =~= rows@);
    out
}

// ---------------------------------------------------------------------------
// Its name
// ---------------------------------------------------------------------------

/// Whether a character is an ASCII letter or digit.
pub open spec fn is_plain(c: char) -> bool {
    'a' <= c <= 'z' || 'A' <= c <= 'Z' || '0' <= c <= '9'
}

/// The text with a hyphen in place of every other character.
pub open spec fn hyphened(s: Seq<char>) -> Seq<char> {
    s.map_values(
        |c: char|
            if is_plain(c) {
                c
            } else {
                '-'
            },
    )
}

/// Those pieces that are not empty.
pub open spec fn non_empty(pieces: Seq<Seq<char>>) -> Seq<Seq<char>>
    decreases pieces.len(),
{
    if pieces.len() == 0 {
        seq![]
    } else if pieces.last().len() == 0 {
        non_empty(pieces.drop_last())
    } else {
        non_empty(pieces.drop_last()).push(pieces.last())
    }
}

/// A name as part of a file name: its words in lower case, joined by hyphens.
pub open spec fn slug_text(name: Seq<char>) -> Seq<char> {
    join_text(non_empty(split_text(hyphened(lower_case(name)), '-')), "-"@)
}

fn hyphen(s: &str) -> (r: String)
    ensures
        r@ == hyphened(s@),
{
    let cs = chars_of(s);
    let mut out = String::new();
    let mut i: usize = 0;
    assert(out@ =~= hyphened(s@).take(0));
    while i < cs.len()
        invariant
            cs@ == s@,
            i <= cs.len(),
            out@ == hyphened(s@).take(i as int),
        decreases cs.len() - i,
    {
        let c = cs[i];
        let plain = ('a' <= c && c <= 'z') || ('A' <= c && c <= 'Z') || ('0' <= c && c <= '9');
        out.push(
            if plain {
                c
            } else {
                '-'
            },
        );
        i += 1;
        assert(out@ =~= hyphened(s@).take(i as int));
    }
    assert(out@ =~= hyphened(s@));
    out
}

/// The name of the file of an account, by which it can be told from the others.
pub fn export_file_name(account_name: &str) -> (r: String)
    ensures
        r@ == "cash-"@ + slug_text(account_name@) + ".csv"@,
{
    let lower = to_lower(account_name);
    let marked = hyphen(lower.as_str());
    let pieces = split(marked.as_str(), '-');
    let ghost all = views(pieces@);
    let mut kept: Vec<&str> = Vec::new();
    let mut i: usize = 0;
    assert(views(kept@) =~= seq![]);
    while i < pieces.len()
        invariant
            i <= pieces.len(),
            all == views(pieces@),
            views(kept@) == non_empty(all.take(i as int)),
        decreases pieces.len() - i,
    {
        let ghost before = views(kept@);
        proof {
            assert(all.take(i + 1).drop_last() =~= all.take(i as int));
            assert(all.take(i + 1).last() == pieces@[i as int]@);
        }
        if !pieces[i].is_empty() {
            kept.push(pieces[i]);
            assert(views(kept@) =~= before.push(pieces@[i as int]@));
        }
        i += 1;
    }
    assert(all.take(pieces.len() as int) =~= all);
    let slug = join(kept.as_slice(), "-");
    joined3("cash-", slug.as_str(), ".csv")
}

// ---------------------------------------------------------------------------
// Laws
// ---------------------------------------------------------------------------

/// The text with every pair of quotation marks once.
pub open spec fn undoubled(s: Seq<char>) -> Seq<char>
    decreases s.len(),
{
    if s.len() == 0 {
        seq![]
    } else if s.len() >= 2 && s.last() == '"' && s[s.len() - 2] == '"' {
        undoubled(s.drop_last().drop_last()).push('"')
    } else {
        undoubled(s.drop_last()).push(s.last())
    }
}

/// What a reader takes from a field: what is between the quotation marks, where
/// it starts with one.
pub open spec fn read_field(f: Seq<char>) -> Seq<char> {
    if f.len() >= 2 && f[0] == '"' {
        undoubled(f.subrange(1, f.len() - 1))
    } else {
        f
    }
}

proof fn lemma_undoubled(s: Seq<char>)
    ensures
        undoubled(doubled(s)) == s,
        s.len() > 0 && s.last() != '"' ==> doubled(s).last() != '"',
    decreases s.len(),
{
    if s.len() > 0 {
        let less = s.drop_last();
        lemma_undoubled(less);
        let d = doubled(s);
        if s.last() == '"' {
            assert(d.drop_last().drop_last() =~= doubled(less));
        } else {
            assert(d.drop_last() =~= doubled(less));
        }
        assert(s =~= less.push(s.last()));
    }
}

/// A field reads back as the text it was made from.
pub proof fn a_field_reads_back(s: Seq<char>)
    ensures
        read_field(field_text(s)) == s,
{
    if has_special(s) {
        let f = field_text(s);
        assert(f.subrange(1, f.len() - 1) =~= doubled(s));
        lemma_undoubled(s);
    } else if s.len() >= 2 && s[0] == '"' {
        assert(is_special(s[0]));
    }
}

/// A field without quotation marks holds nothing that would end it or the line.
pub proof fn a_plain_field_ends_nowhere(s: Seq<char>, i: int)
    requires
        !has_special(s),
        0 <= i < field_text(s).len(),
    ensures
        !is_special(field_text(s)[i]),
{
}

/// The amounts of some rows added up.
pub open spec fn amounts_of(r: Reading, rows: Seq<CsvRow>) -> real
    decreases rows.len(),
{
    if rows.len() == 0 {
        0 as real
    } else {
        amounts_of(r, rows.drop_last()) + r.of(rows.last().amount)
    }
}

/// The balance behind a row is the sum of the amounts up to it.
pub proof fn the_balance_runs_with_the_rows<F: Fn(Formula) -> Number>(
    calc: F,
    r: Reading,
    rows: Seq<CsvRow>,
)
    requires
        is_exact(calc, r),
        forall|i: int| 0 <= i < rows.len() ==> r.is_plain((#[trigger] rows[i]).amount),
        forall|n: int| 0 <= n <= rows.len() ==> r.can(amounts_of(r, #[trigger] rows.take(n))),
    ensures
        r.of(running_balance(calc, rows)) == amounts_of(r, rows),
        r.is_plain(running_balance(calc, rows)),
    decreases rows.len(),
{
    reveal_with_fuel(exact, 4);
    reveal_with_fuel(unrounded, 4);
    if rows.len() > 0 {
        let less = rows.drop_last();
        let n = less.len() as int;
        assert forall|i: int| 0 <= i < less.len() implies r.is_plain(
            (#[trigger] less[i]).amount,
        ) by {
            assert(rows[i] == less[i]);
        }
        assert forall|m: int| 0 <= m <= less.len() implies r.can(
            amounts_of(r, #[trigger] less.take(m)),
        ) by {
            assert(rows.take(m) =~= less.take(m));
        }
        the_balance_runs_with_the_rows(calc, r, less);
        assert(rows[n] == rows.last());
        assert(rows.take(n + 1) =~= rows);
        lemma_exact(calc, r, sum(num(running_balance(calc, less)), num(rows.last().amount)));
    }
}

/// A file is a heading with the currency and a line for each row in their order:
/// its day, its kind, what it is for, its amount and the balance behind it, both
/// with two decimals.
pub proof fn a_row_is_a_line_with_the_balance_behind_it<
    F: Fn(Formula) -> Number,
    R: Fn(Number, Decimals) -> String,
>(calc: F, render: R, currency: Seq<char>, rows: Seq<CsvRow>, row: CsvRow)
    ensures
        csv_text(calc, render, currency, Seq::empty()) == "Date,Transaction,Description,Amount ("@
            + currency + "),Balance ("@ + currency + ")\n"@,
        csv_text(calc, render, currency, rows.push(row)) == csv_text(calc, render, currency, rows)
            + (field_text(row.date@) + ","@ + field_text(row.kind@) + ","@ + field_text(
            description(row),
        ) + ","@ + written(render, row.amount, Decimals::Fixed(2)) + ","@ + written(
            render,
            running_balance(calc, rows.push(row)),
            Decimals::Fixed(2),
        ) + "\n"@),
{
    assert(rows.push(row).drop_last() =~= rows);
}

/// A row is described by its notes, where they are not blank; otherwise as a
/// transfer, where it is one; otherwise by its transaction and symbol.
pub proof fn what_a_row_is_for(row: CsvRow)
    ensures
        row.notes is Some && !is_blank(row.notes->0@) ==> description(row) == row.notes->0@,
        !(row.notes is Some && !is_blank(row.notes->0@)) && row.transfer_group_id is Some
            ==> description(row) == "Transfer between accounts"@,
        !(row.notes is Some && !is_blank(row.notes->0@)) && row.transfer_group_id is None
            && row.symbol is Some && row.transaction_type is Some ==> description(row)
            == row.transaction_type->0@ + " "@ + row.symbol->0@,
{
}

/// The name of a file keeps letters and digits and has a hyphen for anything else,
/// and pieces without a letter or digit are left out of it.
pub proof fn a_file_is_named_by_letters_and_digits(
    s: Seq<char>,
    i: int,
    pieces: Seq<Seq<char>>,
    p: Seq<char>,
)
    requires
        0 <= i < s.len(),
    ensures
        hyphened(s).len() == s.len(),
        ('a' <= s[i] <= 'z' || 'A' <= s[i] <= 'Z' || '0' <= s[i] <= '9') ==> hyphened(s)[i] == s[i],
        !('a' <= s[i] <= 'z' || 'A' <= s[i] <= 'Z' || '0' <= s[i] <= '9') ==> hyphened(s)[i] == '-',
        p.len() == 0 ==> non_empty(pieces.push(p)) == non_empty(pieces),
        p.len() > 0 ==> non_empty(pieces.push(p)) == non_empty(pieces).push(p),
{
    assert(pieces.push(p).drop_last() =~= pieces);
}

} // verus!
