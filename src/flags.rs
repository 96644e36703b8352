use vstd::prelude::*;

verus! {

/// A recognised command-line switch. Every variant has exactly one row in the
/// flag table returned by `valid_flags`.
#[derive(Debug, Clone, Copy, PartialEq, Eq, Structural)]
pub enum Flag {
    Help,
}

pub const HELP_LONG_FORM: &'static str = "--help";

pub const HELP_SHORT_FORM: &'static str = "-h";

pub const HELP_DESCRIPTION: &'static str = "Show CLI help. If passed with an option, shows option description and optional flags with their descriptions.";

pub const HELP_BANNER: &'static str = "Blaze-Downloader CLI HELP:\nThis CLI program is used to download files from the internet, just pass it a url.\n\nUSAGE:\nrun with: <url> <flags>";

/// One row of the flag table: long form, short form, the flag, and its description.
#[derive(Debug, Clone, Copy)]
pub struct FlagEntry {
    pub long_form: &'static str,
    pub short_form: &'static str,
    pub flag: Flag,
    pub description: &'static str,
}

/// A row of the flag table as plain values.
pub type FlagRow = (Seq<char>, Seq<char>, Flag, Seq<char>);

impl View for FlagEntry {
    type V = FlagRow;

    open spec fn view(&self) -> FlagRow {
        (self.long_form@, self.short_form@, self.flag, self.description@)
    }
}

/// The flag table, in the order in which help lists it.
pub open spec fn flag_registry() -> Seq<FlagRow> {
    seq![(HELP_LONG_FORM@, HELP_SHORT_FORM@, Flag::Help, HELP_DESCRIPTION@)]
}

/// The flag of the first row of `rows` whose long or short form is `s`.
pub open spec fn flag_named_in(rows: Seq<FlagRow>, s: Seq<char>) -> Option<Flag>
    decreases rows.len(),
{
    if rows.len() == 0 {
        None
    } else if rows[0].0 == s || rows[0].1 == s {
        Some(rows[0].2)
    } else {
        flag_named_in(rows.drop_first(), s)
    }
}

/// The flag that `s` names in the flag table, if any.
pub open spec fn flag_named(s: Seq<char>) -> Option<Flag> {
    flag_named_in(flag_registry(), s)
}

/// The flag table.
pub fn valid_flags() -> (r: Vec<FlagEntry>)
    ensures
        r@.len() == flag_registry().len(),
        forall|i: int| 0 <= i < r@.len() ==> #[trigger] r@[i]@ == flag_registry()[i],
{
    let help = FlagEntry {
        long_form: HELP_LONG_FORM,
        short_form: HELP_SHORT_FORM,
        flag: Flag::Help,
        description: HELP_DESCRIPTION,
    };
    vec![help]
}

/// Every flag has exactly one row in the flag table.
pub proof fn lemma_each_flag_has_one_row(f: Flag)
    ensures
        exists|i: int| 0 <= i < flag_registry().len() && #[trigger] flag_registry()[i].2 == f,
        forall|i: int, j: int|
            0 <= i < flag_registry().len() && 0 <= j < flag_registry().len()
                && #[trigger] flag_registry()[i].2 == f && #[trigger] flag_registry()[j].2 == f
                ==> i == j,
{
    match f {
        Flag::Help => {
            assert(flag_registry()[0].2 == f);
        },
    }
}

/// The decimal digit character for `d`, for `d < 10`.
pub open spec fn digit_char(d: nat) -> char {
    if d == 0 { '0' }
    else if d == 1 { '1' }
    else if d == 2 { '2' }
    else if d == 3 { '3' }
    else if d == 4 { '4' }
    else if d == 5 { '5' }
    else if d == 6 { '6' }
    else if d == 7 { '7' }
    else if d == 8 { '8' }
    else { '9' }
}

/// The decimal notation of `n`, without leading zeros.
pub open spec fn decimal(n: nat) -> Seq<char>
    decreases n,
{
    if n < 10 {
        seq![digit_char(n)]
    } else {
        decimal(n / 10).push(digit_char(n % 10))
    }
}

/// One line of the help listing: the 1-based position, the two forms and the description.
pub open spec fn flag_line(index: nat, row: FlagRow) -> Seq<char> {
    decimal(index + 1) + ". "@ + row.0 + " | "@ + row.1 + ": "@ + row.3
}

/// The lines of the first `n` rows, separated by newlines.
pub open spec fn listed_lines(rows: Seq<FlagRow>, n: nat) -> Seq<char>
    decreases n,
{
    if n == 0 {
        Seq::empty()
    } else if n == 1 {
        flag_line(0, rows[0])
    } else {
        listed_lines(rows, (n - 1) as nat) + "\n"@ + flag_line((n - 1) as nat, rows[n - 1])
    }
}

/// The full help output: the banner, a heading, and one line per flag in table order.
pub open spec fn help_text() -> Seq<char> {
    HELP_BANNER@ + "\n\nFlags:\n"@ + listed_lines(flag_registry(), flag_registry().len())
        + "\n\n"@
}

fn digit_text(d: usize) -> (r: &'static str)
    requires
        d < 10,
    ensures
        r@ == seq![digit_char(d as nat)],
{
    proof {
        reveal_strlit("0");
        reveal_strlit("1");
        reveal_strlit("2");
        reveal_strlit("3");
        reveal_strlit("4");
        reveal_strlit("5");
        reveal_strlit("6");
        reveal_strlit("7");
        reveal_strlit("8");
        reveal_strlit("9");
    }
    if d == 0 {
        "0"
    } else if d == 1 {
        "1"
    } else if d == 2 {
        "2"
    } else if d == 3 {
        "3"
    } else if d == 4 {
        "4"
    } else if d == 5 {
        "5"
    } else if d == 6 {
        "6"
    } else if d == 7 {
        "7"
    } else if d == 8 {
        "8"
    } else {
        "9"
    }
}

/// Appends the decimal notation of `n` to `out`.
pub fn push_decimal(out: &mut String, n: usize)
    ensures
        final(out)@ == old(out)@ + decimal(n as nat),
    decreases n,
{
    if n >= 10 {
        push_decimal(out, n / 10);
    }
    out.append(digit_text(n % 10));
    assert(final(out)@ =~= old(out)@ + decimal(n as nat));
}

/// Renders the help output for the flag table.
pub fn render_help() -> (r: String)
    ensures
        r@ == help_text(),
{
    let rows = valid_flags();
    let mut out = String::from_str(HELP_BANNER);
    out.append("\n\nFlags:\n");
    let ghost head = out@;
    let mut i: usize = 0;
    while i < rows.len()
        invariant
            i <= rows@.len(),
            rows@.len() == flag_registry().len(),
            forall|k: int| 0 <= k < rows@.len() ==> #[trigger] rows@[k]@ == flag_registry()[k],
            out@ == head + listed_lines(flag_registry(), i as nat),
        decreases rows@.len() - i,
    {
        let row = rows[i];
        assert(row@ == flag_registry()[i as int]);
        if i > 0 {
            out.append("\n");
        }
        let ghost sep = out@;
        push_decimal(&mut out, i + 1);
        out.append(". ");
        out.append(row.long_form);
        out.append(" | ");
        out.append(row.short_form);
        out.append(": ");
        out.append(row.description);
        assert(out@ =~= sep + flag_line(i as nat, flag_registry()[i as int]));
        i = i + 1;
        assert(out@ =~= head + listed_lines(flag_registry(), i as nat));
    }
    out.append("\n\n");
    out
}

/// Where the line of row `k` starts in the listing of the rows.
pub open spec fn line_offset(rows: Seq<FlagRow>, k: nat) -> int
    decreases k,
{
    if k == 0 {
        0
    } else {
        line_offset(rows, (k - 1) as nat) + flag_line((k - 1) as nat, rows[k - 1]).len() as int + 1
    }
}

proof fn lemma_listing_holds_lines(rows: Seq<FlagRow>, n: nat)
    requires
        n <= rows.len(),
    ensures
        n > 0 ==> listed_lines(rows, n).len() as int + 1 == line_offset(rows, n),
        forall|k: nat|
            k < n ==> (#[trigger] listed_lines(rows, n).subrange(
                line_offset(rows, k) as int,
                line_offset(rows, k) + flag_line(k, rows[k as int]).len() as int,
            )) == flag_line(k, rows[k as int]),
    decreases n,
{
    reveal_strlit("\n");
    if n > 1 {
        lemma_listing_holds_lines(rows, (n - 1) as nat);
        let prev = listed_lines(rows, (n - 1) as nat);
        let last = flag_line((n - 1) as nat, rows[n - 1]);
        let all = listed_lines(rows, n);
        assert(all == prev + "\n"@ + last);
        assert(line_offset(rows, n) == line_offset(rows, (n - 1) as nat) + last.len() as int + 1);
        assert(all.len() == prev.len() + 1 + last.len());
        assert forall|k: nat| k < n implies (#[trigger] all.subrange(
            line_offset(rows, k) as int,
            line_offset(rows, k) + flag_line(k, rows[k as int]).len() as int,
        )) == flag_line(k, rows[k as int]) by {
            if k < n - 1 {
                let lo = line_offset(rows, k) as int;
                let hi = (line_offset(rows, k) + flag_line(k, rows[k as int]).len()) as int;
                lemma_offsets_grow(rows, k, (n - 1) as nat);
                lemma_offset_nonnegative(rows, k);
                assert(hi <= prev.len());
                assert(all.subrange(lo, hi) =~= prev.subrange(lo, hi));
            } else {
                assert(all.subrange(prev.len() as int + 1, all.len() as int) =~= last);
            }
        }
    } else if n == 1 {
        assert(line_offset(rows, 0) == 0);
        assert(line_offset(rows, 1) == flag_line(0, rows[0]).len() as int + 1);
        assert forall|k: nat| k < n implies (#[trigger] listed_lines(rows, n).subrange(
            line_offset(rows, k) as int,
            line_offset(rows, k) + flag_line(k, rows[k as int]).len() as int,
        )) == flag_line(k, rows[k as int]) by {
            assert(listed_lines(rows, 1).subrange(0, flag_line(0, rows[0]).len() as int)
                =~= flag_line(0, rows[0]));
        }
    }
}

proof fn lemma_offset_nonnegative(rows: Seq<FlagRow>, k: nat)
    ensures
        0 <= line_offset(rows, k),
    decreases k,
{
    if k > 0 {
        lemma_offset_nonnegative(rows, (k - 1) as nat);
    }
}

proof fn lemma_offsets_grow(rows: Seq<FlagRow>, k: nat, m: nat)
    requires
        k < m,
    ensures
        line_offset(rows, k) + flag_line(k, rows[k as int]).len() < line_offset(rows, m),
    decreases m,
{
    if k + 1 < m {
        lemma_offsets_grow(rows, k, (m - 1) as nat);
    }
}

/// Where the line of flag row `k` starts in the help output.
pub open spec fn help_line_position(k: nat) -> int {
    (HELP_BANNER@.len() + "\n\nFlags:\n"@.len()) as int + line_offset(flag_registry(), k)
}

/// The help output lists every row of the flag table, each on a line of its
/// own holding its long form, short form and description, in table order.
pub proof fn lemma_help_lists_every_flag_in_order()
    ensures
        forall|k: nat|
            k < flag_registry().len() ==> #[trigger] help_text().subrange(
                help_line_position(k),
                help_line_position(k) + flag_line(k, flag_registry()[k as int]).len(),
            ) == flag_line(k, flag_registry()[k as int]),
        forall|j: nat, k: nat|
            j < k < flag_registry().len() ==> #[trigger] help_line_position(j) + flag_line(
                j,
                flag_registry()[j as int],
            ).len() < #[trigger] help_line_position(k),
{
    let rows = flag_registry();
    let n = rows.len();
    lemma_listing_holds_lines(rows, n);
    let head = HELP_BANNER@ + "\n\nFlags:\n"@;
    let listing = listed_lines(rows, n);
    assert forall|k: nat| k < n implies #[trigger] help_text().subrange(
        help_line_position(k),
        help_line_position(k) + flag_line(k, rows[k as int]).len(),
    ) == flag_line(k, rows[k as int]) by {
        let lo = line_offset(rows, k) as int;
        let hi = (line_offset(rows, k) + flag_line(k, rows[k as int]).len()) as int;
        assert(listing.subrange(lo, hi) == flag_line(k, rows[k as int]));
        assert(help_text().subrange(head.len() as int + lo, head.len() as int + hi) =~= listing.subrange(lo, hi));
    }
    assert forall|j: nat, k: nat| j < k < n implies #[trigger] help_line_position(j) + flag_line(
        j,
        rows[j as int],
    ).len() < #[trigger] help_line_position(k) by {
        lemma_offsets_grow(rows, j, k);
    }
}

} // verus!
