//! The scoreboard shown during a match and at its results: paging and its text.
use vstd::prelude::*;
use crate::match_state::ScoreRow;
use crate::text::{decimal, decimal_text, pad_left, pad_right, push_padded_left, push_padded_right};

verus! {

/// Rows shown per page for a window with room for `fit` rows: four to sixteen.
pub fn rows_per_page(fit: usize) -> (per_page: usize)
    ensures
        per_page == (if fit < 4 {
            4
        } else if fit > 16 {
            16
        } else {
            fit
        }),
{
    if fit < 4 {
        4
    } else if fit > 16 {
        16
    } else {
        fit
    }
}

/// Pages needed for `rows` rows, `per_page` at a time; an empty board still has one page.
pub open spec fn pages_for(rows: int, per_page: int) -> int {
    let pages = (rows + per_page - 1) / per_page;
    if pages < 1 {
        1
    } else {
        pages
    }
}

pub fn page_count(rows: usize, per_page: usize) -> (pages: usize)
    requires
        per_page > 0,
    ensures
        pages == pages_for(rows as int, per_page as int),
        pages >= 1,
        (pages - 1) * per_page < rows || pages == 1,
{
    proof {
        if per_page >= 2 {
            vstd::arithmetic::div_mod::lemma_div_is_ordered_by_denominator(rows as int, 2, per_page as int);
        }
    }
    let pages = rows / per_page + if rows % per_page == 0 {
        0
    } else {
        1
    };
    proof {
        assert(pages == (rows + per_page - 1) / per_page as int) by (nonlinear_arith)
            requires
                per_page > 0,
                pages == rows / per_page + if rows % per_page == 0 { 0int } else { 1int },
        {
            vstd::arithmetic::div_mod::lemma_fundamental_div_mod(rows as int, per_page as int);
            vstd::arithmetic::div_mod::lemma_fundamental_div_mod((rows + per_page - 1) as int, per_page as int);
        }
        if pages > 1 {
            assert((pages - 1) * per_page < rows) by (nonlinear_arith)
                requires
                    per_page > 0,
                    pages > 1,
                    pages == rows / per_page + if rows % per_page == 0 { 0int } else { 1int },
            {
                vstd::arithmetic::div_mod::lemma_fundamental_div_mod(rows as int, per_page as int);
            }
        }
    }
    if pages < 1 {
        1
    } else {
        pages
    }
}

/// The page after the page keys or the wheel: one on, then one back
/// (stopping at the first), then kept on an existing page.
pub fn turn_page(page: usize, next: bool, prev: bool, pages: usize) -> (turned: usize)
    requires
        pages >= 1,
    ensures
        turned == ({
            let forward = if next {
                page + 1
            } else {
                page as int
            };
            let back = if prev && forward > 0 {
                forward - 1
            } else {
                forward
            };
            if back < pages {
                back
            } else {
                pages - 1
            }
        }),
        turned < pages,
{
    let mut turned = page;
    if next && turned < pages {
        turned = turned + 1;
    } else if next {
        turned = pages;
    }
    if prev && turned > 0 {
        turned = turned - 1;
    }
    if turned < pages {
        turned
    } else {
        pages - 1
    }
}

/// The ranked rows shown on `page`: from index `start` up to, not including,
/// `end`, `per_page` rows a page, cut at the number of rows.
pub fn page_rows(rows: usize, page: usize, per_page: usize) -> (range: (usize, usize))
    requires
        per_page > 0,
    ensures
        range.0 == (if page * per_page < rows {
            page * per_page
        } else {
            rows as int
        }),
        range.1 == (if range.0 + per_page < rows {
            range.0 + per_page
        } else {
            rows as int
        }),
{
    let start = if page <= rows / per_page {
        proof {
            assert(page * per_page <= (rows / per_page) * per_page) by (nonlinear_arith)
                requires
                    page <= rows / per_page,
                    per_page > 0,
            ;
            assert((rows / per_page) * per_page <= rows) by (nonlinear_arith)
                requires
                    per_page > 0,
            ;
        }
        let first = page * per_page;
        if first < rows {
            first
        } else {
            rows
        }
    } else {
        proof {
            assert(page * per_page >= rows) by (nonlinear_arith)
                requires
                    page > rows / per_page,
                    per_page > 0,
            {
                vstd::arithmetic::div_mod::lemma_fundamental_div_mod(rows as int, per_page as int);
            }
        }
        rows
    };
    let end = if rows - start > per_page {
        start + per_page
    } else {
        rows
    };
    (start, end)
}

/// `n` in at least two digits, zero-padded, as `{:02}` formats it.
pub open spec fn two_digits(n: nat) -> Seq<char> {
    if n < 10 {
        "0"@ + decimal(n)
    } else {
        decimal(n)
    }
}

/// The clock line: the wait for the next match during results, else the
/// minutes and seconds left.
pub open spec fn clock_line(results: bool, remaining_seconds: u32) -> Seq<char> {
    if results {
        "Next match in "@ + decimal(remaining_seconds as nat) + "s"@
    } else {
        "Time left "@ + two_digits((remaining_seconds / 60) as nat) + ":"@ + two_digits(
            (remaining_seconds % 60) as nat,
        )
    }
}

/// The line of the row ranked `index` (from zero): a marker on the viewer's
/// own row, a star on a disconnected player, rank, nickname, kills, deaths.
pub open spec fn row_line(index: nat, row: ScoreRow, own: Option<u64>) -> Seq<char> {
    (if own == Some(row.id) {
        ">"@
    } else {
        " "@
    }) + " "@ + (if row.connected {
        " "@
    } else {
        "*"@
    }) + pad_left(decimal(index + 1), 2) + ". "@ + pad_right(row.nickname@, 20) + " "@ + pad_left(
        decimal(row.kills as nat),
        5,
    ) + " "@ + pad_left(decimal(row.deaths as nat), 6) + "\n"@
}

/// The lines of the ranked rows from index `from` up to `to`.
pub open spec fn row_lines(rows: Seq<ScoreRow>, own: Option<u64>, from: int, to: int) -> Seq<char>
    decreases to - from,
{
    if to <= from {
        Seq::<char>::empty()
    } else {
        row_lines(rows, own, from, to - 1) + row_line((to - 1) as nat, rows[to - 1], own)
    }
}

/// First ranked row shown on `page`.
pub open spec fn page_start(rows: int, page: int, per_page: int) -> int {
    if page * per_page < rows {
        page * per_page
    } else {
        rows
    }
}

/// The scoreboard text for match `number`, in results (or not), with
/// `remaining_seconds` left, the ranked `rows`, the viewer's own player id,
/// showing `page` of `per_page` rows.
pub open spec fn board_text(
    number: u64,
    results: bool,
    remaining_seconds: u32,
    rows: Seq<ScoreRow>,
    own: Option<u64>,
    page: int,
    per_page: int,
) -> Seq<char> {
    let pages = pages_for(rows.len() as int, per_page);
    let start = page_start(rows.len() as int, page, per_page);
    let end = if start + per_page < rows.len() {
        start + per_page
    } else {
        rows.len() as int
    };
    "MATCH "@ + decimal(number as nat) + " — "@ + (if results {
        "RESULTS"@
    } else {
        "SCOREBOARD"@
    }) + "\n"@ + clock_line(results, remaining_seconds) + "\n\n    #  NICKNAME               KILLS DEATHS\n"@
        + row_lines(rows, own, start, end) + (if rows.len() == 0 {
        "No participants yet\n"@
    } else {
        Seq::<char>::empty()
    }) + "\n> You   * Disconnected"@ + (if pages > 1 {
        "\nPage "@ + decimal((page + 1) as nat) + "/"@ + decimal(pages as nat) + " — PgUp/PgDn or wheel"@
    } else {
        Seq::<char>::empty()
    }) + (if !results {
        "\nHold Tab to view"@
    } else {
        Seq::<char>::empty()
    })
}

fn push_two_digits(s: &mut String, n: u64)
    ensures
        final(s)@ == old(s)@ + two_digits(n as nat),
{
    if n < 10 {
        s.append("0");
        assert(old(s)@ + "0"@ + decimal(n as nat) =~= old(s)@ + ("0"@ + decimal(n as nat)));
    }
    let d = decimal_text(n);
    s.append(d.as_str());
}

fn row_text(index: usize, row: &ScoreRow, own: Option<u64>) -> (line: String)
    requires
        index < usize::MAX,
    ensures
        line@ == row_line(index as nat, *row, own),
{
    let mut s = String::new();
    let marker = if own == Some(row.id) {
        ">"
    } else {
        " "
    };
    s.append(marker);
    assert(s@ =~= marker@);
    s.append(" ");
    if row.connected {
        s.append(" ");
    } else {
        s.append("*");
    }
    let rank = decimal_text(index as u64 + 1);
    push_padded_left(&mut s, rank.as_str(), 2);
    s.append(". ");
    push_padded_right(&mut s, row.nickname.as_str(), 20);
    s.append(" ");
    let kills = decimal_text(row.kills as u64);
    push_padded_left(&mut s, kills.as_str(), 5);
    s.append(" ");
    let deaths = decimal_text(row.deaths as u64);
    push_padded_left(&mut s, deaths.as_str(), 6);
    s.append("\n");
    s
}

/// The scoreboard's text: match number and phase, the clock, the rows of
/// `page` (ranked `rows`, `per_page` a page, the viewer's own row marked),
/// the legend, the page line when there is more than one page, and the Tab
/// hint while the match runs.
pub fn board_label(
    number: u64,
    results: bool,
    remaining_seconds: u32,
    rows: &Vec<&ScoreRow>,
    own: Option<u64>,
    page: usize,
    per_page: usize,
) -> (label: String)
    requires
        per_page > 0,
        page < pages_for(rows@.len() as int, per_page as int),
    ensures
        label@ == board_text(
            number,
            results,
            remaining_seconds,
            rows@.map_values(|r: &ScoreRow| *r),
            own,
            page as int,
            per_page as int,
        ),
{
    let ghost view = rows@.map_values(|r: &ScoreRow| *r);
    let mut s = String::new();
    s.append("MATCH ");
    let n = decimal_text(number);
    s.append(n.as_str());
    s.append(" — ");
    if results {
        s.append("RESULTS");
    } else {
        s.append("SCOREBOARD");
    }
    s.append("\n");
    let ghost before_clock = s@;
    if results {
        s.append("Next match in ");
        let r = decimal_text(remaining_seconds as u64);
        s.append(r.as_str());
        s.append("s");
    } else {
        s.append("Time left ");
        push_two_digits(&mut s, (remaining_seconds / 60) as u64);
        s.append(":");
        push_two_digits(&mut s, (remaining_seconds % 60) as u64);
    }
    assert(s@ =~= before_clock + clock_line(results, remaining_seconds));
    s.append("\n\n    #  NICKNAME               KILLS DEATHS\n");
    let (first, end) = page_rows(rows.len(), page, per_page);
    let ghost head = s@;
    let mut k: usize = first;
    while k < end
        invariant
            first <= k <= end,
            end <= rows@.len(),
            view == rows@.map_values(|r: &ScoreRow| *r),
            s@ == head + row_lines(view, own, first as int, k as int),
        decreases end - k,
    {
        let ghost before = s@;
        let line = row_text(k, rows[k], own);
        s.append(line.as_str());
        assert(head + row_lines(view, own, first as int, k + 1) =~= before + row_line(k as nat, view[k as int], own));
        k = k + 1;
    }
    let ghost after_rows = s@;
    if rows.len() == 0 {
        s.append("No participants yet\n");
    }
    s.append("\n> You   * Disconnected");
    let pages = page_count(rows.len(), per_page);
    let ghost before_pages = s@;
    if pages > 1 {
        s.append("\nPage ");
        let p = decimal_text(page as u64 + 1);
        s.append(p.as_str());
        s.append("/");
        let q = decimal_text(pages as u64);
        s.append(q.as_str());
        s.append(" — PgUp/PgDn or wheel");
    }
    let ghost before_hint = s@;
    if !results {
        s.append("\nHold Tab to view");
    }
    proof {
        let e = Seq::<char>::empty();
        if rows@.len() != 0 {
            assert(after_rows + e =~= after_rows);
        }
        if pages <= 1 {
            assert(before_pages + e =~= before_pages);
        }
        if results {
            assert(before_hint + e =~= before_hint);
        }
    }
    s
}

} // verus!
