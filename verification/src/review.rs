//! Retrospective reviews: the day each record belongs to, the calendar period
//! a review covers, the overview of yearly counts, and the Markdown context of
//! a period.
use vstd::prelude::*;
use crate::calendar::{
    Day, MAX_YEAR, MIN_YEAR, valid_ymd, valid_day, month_length, day_le, day_text, int_text,
    invalid_date_message, parsed_day, parse_day, date, day_before, days_in_month, push_int,
    push_day, is_day_le, preceding,
};
use crate::cli::ReviewScope;
use crate::document::{Document, DocumentModel};
use crate::numbers::decimal;
use crate::text::{
    chars_of, string_of, push_all, push_str, text_is, lines, lines_of, views, trim, trim_chars, has_prefix,
    find_char, find_char_from, starts_with_str, same, lemma_find_char,
};
use crate::lines::find_prefixed;
use crate::order::{path_le, le_path, lemma_path_le_total, lemma_path_le_trans, stable_sorted, lemma_insertion_slot};

verus! {

// ---------------------------------------------------------------------------
// The day of a record
// ---------------------------------------------------------------------------

/// The text a record's review day is read from: a journal's heading, or the
/// part of another record's `created_at` before its first `T`.
pub open spec fn review_value(d: DocumentModel) -> Seq<char> {
    if d.kind == "journal"@ {
        d.heading
    } else {
        d.created_at.take(find_char(d.created_at, 'T'))
    }
}

/// A record's review day, given what chrono read from its review value.
pub open spec fn review_day_of(d: DocumentModel, parsed: Option<Day>) -> Result<Day, Seq<char>> {
    match parsed {
        Some(day) => Ok(day),
        None => Err("invalid review date in "@ + d.path + ": "@ + review_value(d)),
    }
}

/// The text a record's review day is read from.
pub fn review_value_of(document: &Document) -> (v: String)
    ensures
        v@ == review_value(document@),
{
    let kind = chars_of(document.kind.as_str());
    let journal = text_is(kind.as_slice(), "journal");
    if journal {
        document.heading.clone()
    } else {
        let created = chars_of(document.created_at.as_str());
        let t = find_char_from(created.as_slice(), 0, 'T');
        assert(created@.skip(0) =~= created@);
        let part = crate::text::slice_of(created.as_slice(), 0, t);
        assert(part@ =~= created@.take(t as int));
        string_of(part.as_slice())
    }
}

/// A record's review day once chrono has read (or refused) its review value.
pub fn review_date_from(document: &Document, parsed: Option<Day>) -> (r: Result<Day, String>)
    ensures
        match review_day_of(document@, parsed) {
            Ok(day) => r == Ok::<Day, String>(day),
            Err(e) => r is Err && r->Err_0@ == e,
        },
{
    match parsed {
        Some(day) => Ok(day),
        None => {
            let value = review_value_of(document);
            let mut e = chars_of("invalid review date in ");
            push_str(&mut e, document.path.as_str());
            push_str(&mut e, ": ");
            push_str(&mut e, value.as_str());
            Err(string_of(e.as_slice()))
        },
    }
}

/// The day a record belongs to in reviews: a journal's date heading, or the
/// date part of another record's `created_at`, read as `%Y-%m-%d`.
pub fn review_date(document: &Document) -> (r: Result<Day, String>)
    ensures
        match review_day_of(document@, parsed_day(review_value(document@))) {
            Ok(day) => r == Ok::<Day, String>(day),
            Err(e) => r is Err && r->Err_0@ == e,
        },
        r is Ok ==> valid_day(r->Ok_0),
{
    let value = review_value_of(document);
    let parsed = parse_day(value.as_str());
    review_date_from(document, parsed)
}

/// Where a record kind sorts among records of the same day.
pub open spec fn kind_rank(kind: Seq<char>) -> u8 {
    if kind == "journal"@ {
        0
    } else if kind == "decision"@ {
        1
    } else if kind == "learning"@ {
        2
    } else {
        3
    }
}

/// Where a record sorts among records of the same day: journals, then
/// decisions, then learnings, then anything else.
pub fn review_kind_order(document: &Document) -> (r: u8)
    ensures
        r == kind_rank(document@.kind),
{
    let kind = chars_of(document.kind.as_str());
    if text_is(kind.as_slice(), "journal") {
        0
    } else if text_is(kind.as_slice(), "decision") {
        1
    } else if text_is(kind.as_slice(), "learning") {
        2
    } else {
        3
    }
}

// ---------------------------------------------------------------------------
// The period of a review
// ---------------------------------------------------------------------------

/// `year` is one chrono represents.
pub open spec fn valid_year(y: int) -> bool {
    MIN_YEAR <= y <= MAX_YEAR
}

/// The period from the first day of month `first` to the last day of month
/// `last` of year `y`.
pub open spec fn months_span(y: i32, first: u32, last: u32) -> (Day, Day) {
    (
        Day { year: y, month: first, day: 1 },
        Day { year: y, month: last, day: month_length(y as int, last as int) as u32 },
    )
}

/// A month written `{year}-{month:02}`.
pub open spec fn month_label(y: int, m: int) -> Seq<char> {
    int_text(y) + seq!['-'] + crate::calendar::zero_padded(decimal(m as nat), 2)
}

/// The days a review scope covers (`None` for all history) and its label, or
/// the message for a period the calendar does not have. A quarter's months
/// are `3q-2` to `3q`; a half other than the first is the second.
pub open spec fn review_period(scope: ReviewScope) -> Result<(Option<(Day, Day)>, Seq<char>), Seq<char>> {
    match scope {
        ReviewScope::AllTime => Ok((None, "all history"@)),
        ReviewScope::Year(y) => if valid_year(y as int) {
            Ok((Some(months_span(y, 1, 12)), int_text(y as int)))
        } else {
            Err(invalid_date_message(y as int, 1, 1))
        },
        ReviewScope::Month(y, m) => if valid_ymd(y as int, m as int, 1) {
            Ok((Some(months_span(y, m, m)), month_label(y as int, m as int)))
        } else {
            Err(invalid_date_message(y as int, m as int, 1))
        },
        ReviewScope::Quarter(y, q) => {
            let first = (q - 1) * 3 + 1;
            if valid_ymd(y as int, first, 1) {
                Ok(
                    (
                        Some(months_span(y, first as u32, (first + 2) as u32)),
                        int_text(y as int) + " Q"@ + decimal(q as nat),
                    ),
                )
            } else {
                Err(invalid_date_message(y as int, first, 1))
            }
        },
        ReviewScope::Half(y, h) => {
            let first: u32 = if h == 1 { 1 } else { 7 };
            let last: u32 = if h == 1 { 6 } else { 12 };
            if valid_year(y as int) {
                Ok((Some(months_span(y, first, last)), int_text(y as int) + " H"@ + decimal(h as nat)))
            } else {
                Err(invalid_date_message(y as int, first as int, 1))
            }
        },
        ReviewScope::Overview => Err(seq![]),
    }
}

/// A review scope that names a period; the overview has none, and a quarter
/// is counted from 1.
pub open spec fn period_scope(scope: ReviewScope) -> bool {
    match scope {
        ReviewScope::Overview => false,
        ReviewScope::Quarter(_, q) => 1 <= q && (q - 1) * 3 + 3 <= u32::MAX,
        _ => true,
    }
}

/// The last day of month `month` of `year`: the day before the first of the
/// next month, or the 31st of December.
fn last_day_of_month(year: i32, month: u32) -> (r: Result<Day, String>)
    requires
        valid_ymd(year as int, month as int, 1),
    ensures
        r == Ok::<Day, String>(Day { year, month, day: month_length(year as int, month as int) as u32 }),
{
    if month == 12 {
        return date(year, 12, 31);
    }
    let next = date(year, month + 1, 1)?;
    let r = day_before(next);
    Ok(r)
}

/// The days a review covers and the period's label.
pub fn review_range(scope: &ReviewScope) -> (r: Result<(Option<(Day, Day)>, String), String>)
    requires
        period_scope(*scope),
    ensures
        match review_period(*scope) {
            Ok((range, label)) => r is Ok && r->Ok_0.0 == range && r->Ok_0.1@ == label,
            Err(e) => r is Err && r->Err_0@ == e,
        },
{
    match *scope {
        ReviewScope::AllTime => Ok((None, string_of(chars_of("all history").as_slice()))),
        ReviewScope::Year(year) => {
            let start = date(year, 1, 1)?;
            let end = date(year, 12, 31)?;
            let mut label: Vec<char> = Vec::new();
            push_int(&mut label, year as i64);
            assert(label@ =~= int_text(year as int));
            Ok((Some((start, end)), string_of(label.as_slice())))
        },
        ReviewScope::Month(year, month) => {
            let start = date(year, month, 1)?;
            let end = last_day_of_month(year, month)?;
            let mut label: Vec<char> = Vec::new();
            push_int(&mut label, year as i64);
            label.push('-');
            crate::calendar::push_zero_padded(&mut label, month as u64, 2);
            assert(label@ =~= month_label(year as int, month as int));
            Ok((Some((start, end)), string_of(label.as_slice())))
        },
        ReviewScope::Quarter(year, quarter) => {
            let start_month = (quarter - 1) * 3 + 1;
            let end_month = start_month + 2;
            let start = date(year, start_month, 1)?;
            let end = last_day_of_month(year, end_month)?;
            let mut label: Vec<char> = Vec::new();
            push_int(&mut label, year as i64);
            push_str(&mut label, " Q");
            push_int(&mut label, quarter as i64);
            assert(label@ =~= int_text(year as int) + " Q"@ + decimal(quarter as nat));
            Ok((Some((start, end)), string_of(label.as_slice())))
        },
        ReviewScope::Half(year, half) => {
            let start_month: u32 = if half == 1 {
                1
            } else {
                7
            };
            let end_month: u32 = if half == 1 {
                6
            } else {
                12
            };
            let start = date(year, start_month, 1)?;
            let end = last_day_of_month(year, end_month)?;
            let mut label: Vec<char> = Vec::new();
            push_int(&mut label, year as i64);
            push_str(&mut label, " H");
            push_int(&mut label, half as i64);
            assert(label@ =~= int_text(year as int) + " H"@ + decimal(half as nat));
            Ok((Some((start, end)), string_of(label.as_slice())))
        },
        ReviewScope::Overview => Err(String::new()),
    }
}

// ---------------------------------------------------------------------------
// A record body in a review
// ---------------------------------------------------------------------------

/// Index of the first line at or after `j` that opens a `## ` section, or
/// the number of lines.
pub open spec fn section_from(ls: Seq<Seq<char>>, j: int) -> int
    decreases ls.len() - j,
{
    if j >= ls.len() {
        ls.len() as int
    } else if has_prefix(ls[j], "## "@) {
        j
    } else {
        section_from(ls, j + 1)
    }
}

/// `section_from` lies between where it starts and the end.
pub proof fn lemma_section_from_bounds(ls: Seq<Seq<char>>, j: int)
    requires
        0 <= j <= ls.len(),
    ensures
        j <= section_from(ls, j) <= ls.len(),
    decreases ls.len() - j,
{
    if j < ls.len() && !has_prefix(ls[j], "## "@) {
        lemma_section_from_bounds(ls, j + 1);
    }
}

/// Lines without a section heading between `j` and `i` do not move
/// `section_from`.
pub proof fn lemma_section_from_skips(ls: Seq<Seq<char>>, j: int, i: int)
    requires
        0 <= j <= i <= ls.len(),
        forall|m: int| j <= m < i ==> !has_prefix(#[trigger] ls[m], "## "@),
    ensures
        section_from(ls, j) == section_from(ls, i),
    decreases i - j,
{
    if j < i {
        lemma_section_from_skips(ls, j + 1, i);
    }
}

/// A line that shows something: not blank, not the `<!-- none -->`
/// placeholder, and not a section heading.
pub open spec fn meaningful(line: Seq<char>) -> bool {
    trim(line).len() > 0 && trim(line) != "<!-- none -->"@ && !has_prefix(line, "## "@)
}

/// A line as a review shows it: headings one level deeper, placeholders
/// dropped.
pub open spec fn shown_line(line: Seq<char>) -> Seq<char> {
    if trim(line) == "<!-- none -->"@ {
        seq![]
    } else {
        (if has_prefix(line, "#"@) {
            "##"@
        } else {
            Seq::<char>::empty()
        }) + line + "\n"@
    }
}

/// The shown lines of a block.
pub open spec fn shown_lines(block: Seq<Seq<char>>) -> Seq<char>
    decreases block.len(),
{
    if block.len() == 0 {
        seq![]
    } else {
        shown_lines(block.drop_last()) + shown_line(block.last())
    }
}

/// A block of lines as a review shows it: nothing unless some line is
/// meaningful.
pub open spec fn block_text(block: Seq<Seq<char>>) -> Seq<char> {
    if exists|i: int| 0 <= i < block.len() && meaningful(#[trigger] block[i]) {
        shown_lines(block)
    } else {
        seq![]
    }
}

/// Lines split into blocks at each `## ` heading after the first line, each
/// block as a review shows it.
pub open spec fn blocks_text(ls: Seq<Seq<char>>) -> Seq<char>
    decreases ls.len(),
{
    if ls.len() == 0 {
        seq![]
    } else {
        let j = section_from(ls, 1);
        proof {
            lemma_section_from_bounds(ls, 1);
        }
        block_text(ls.take(j)) + blocks_text(ls.skip(j))
    }
}

/// The lines after a body's first H1 heading; none when it has no H1.
pub open spec fn after_title(ls: Seq<Seq<char>>) -> Seq<Seq<char>> {
    let k = crate::lines::index_of_prefixed(ls, "# "@);
    if k < ls.len() {
        ls.skip(k + 1)
    } else {
        seq![]
    }
}

/// A record body as a review shows it: the sections after its H1 that hold
/// something, with headings one level deeper and placeholders dropped.
pub open spec fn reviewed_body(body: Seq<char>) -> Seq<char> {
    trim(blocks_text(after_title(lines(body))))
}

fn emit_block(out: &mut Vec<char>, ls: &Vec<Vec<char>>, a: usize, b: usize)
    requires
        a <= b <= ls.len(),
    ensures
        final(out)@ == old(out)@ + block_text(views(ls@).subrange(a as int, b as int)),
{
    let ghost block = views(ls@).subrange(a as int, b as int);
    let mut found = false;
    let mut i = a;
    while i < b
        invariant
            a <= i <= b <= ls.len(),
            block == views(ls@).subrange(a as int, b as int),
            found == exists|m: int| 0 <= m < i - a && meaningful(#[trigger] block[m]),
        decreases b - i,
    {
        let t = trim_chars(ls[i].as_slice());
        assert(block[i - a] == ls@[i as int]@);
        let m = t.len() > 0 && !text_is(t.as_slice(), "<!-- none -->") && !starts_with_str(
            ls[i].as_slice(),
            "## ",
        );
        if m {
            found = true;
        }
        assert(found == exists|k: int| 0 <= k < i + 1 - a && meaningful(#[trigger] block[k])) by {
            if m {
                assert(meaningful(block[i - a]));
            }
        }
        i = i + 1;
    }
    if !found {
        return;
    }
    let ghost start = out@;
    let mut j = a;
    while j < b
        invariant
            a <= j <= b <= ls.len(),
            block == views(ls@).subrange(a as int, b as int),
            out@ == start + shown_lines(block.take(j - a)),
        decreases b - j,
    {
        let t = trim_chars(ls[j].as_slice());
        assert(block[j - a] == ls@[j as int]@);
        assert(block.take(j + 1 - a).drop_last() =~= block.take(j - a));
        if !text_is(t.as_slice(), "<!-- none -->") {
            if starts_with_str(ls[j].as_slice(), "#") {
                push_str(out, "##");
            }
            push_all(out, ls[j].as_slice());
            push_str(out, "\n");
        }
        assert(out@ =~= start + shown_lines(block.take(j + 1 - a)));
        j = j + 1;
    }
    assert(block.take(b - a) =~= block);
}

/// A record body as a review shows it.
pub fn review_body(body: &str) -> (r: String)
    ensures
        r@ == reviewed_body(body@),
{
    let b = chars_of(body);
    let all = lines_of(b.as_slice());
    let title = chars_of("# ");
    let k = find_prefixed(&all, 0, title.as_slice());
    proof {
        assert(views(all@).skip(0) =~= views(all@));
        crate::lines::lemma_index_of_prefixed(views(all@), "# "@);
    }
    if k >= all.len() {
        assert(after_title(lines(body@)) =~= Seq::<Seq<char>>::empty());
        assert(blocks_text(Seq::<Seq<char>>::empty()) =~= Seq::<char>::empty());
        assert(trim(Seq::<char>::empty()) =~= Seq::<char>::empty());
        return String::new();
    }
    let ls = crate::lines::lines_between(&all, k + 1, all.len());
    let ghost lv = views(ls@);
    assert(lv =~= after_title(lines(body@)));
    let mut out: Vec<char> = Vec::new();
    if ls.len() == 0 {
        assert(blocks_text(lv) =~= Seq::<char>::empty());
    } else {
        let mut start: usize = 0;
        let mut i: usize = 1;
        assert(lv.skip(0) =~= lv);
        while i < ls.len()
            invariant
                lv == views(ls@),
                start < i <= ls.len(),
                out@ + blocks_text(lv.skip(start as int)) == blocks_text(lv),
                forall|m: int| start < m < i ==> !has_prefix(#[trigger] lv[m], "## "@),
            decreases ls.len() - i,
        {
            assert(lv[i as int] == ls@[i as int]@);
            if starts_with_str(ls[i].as_slice(), "## ") {
                let ghost s = lv.skip(start as int);
                proof {
                    assert forall|m: int| 1 <= m < i - start implies !has_prefix(
                        #[trigger] s[m],
                        "## "@,
                    ) by {
                        assert(s[m] == lv[start + m]);
                    }
                    lemma_section_from_skips(s, 1, i - start);
                    assert(s[i - start] == lv[i as int]);
                    assert(section_from(s, 1) == i - start);
                    assert(s.take(i - start) =~= lv.subrange(start as int, i as int));
                    assert(s.skip(i - start) =~= lv.skip(i as int));
                }
                let ghost before = out@;
                emit_block(&mut out, &ls, start, i);
                assert(out@ + blocks_text(lv.skip(i as int)) =~= before + blocks_text(s));
                start = i;
            }
            i = i + 1;
        }
        let ghost s = lv.skip(start as int);
        proof {
            assert forall|m: int| 1 <= m < s.len() implies !has_prefix(#[trigger] s[m], "## "@) by {
                assert(s[m] == lv[start + m]);
            }
            lemma_section_from_skips(s, 1, s.len() as int);
            assert(s.take(s.len() as int) =~= s);
            assert(s.skip(s.len() as int) =~= Seq::<Seq<char>>::empty());
            assert(s =~= lv.subrange(start as int, ls.len() as int));
            assert(section_from(s, s.len() as int) == s.len());
            assert(section_from(s, 1) == s.len());
            assert(blocks_text(Seq::<Seq<char>>::empty()) =~= Seq::<char>::empty());
            assert(blocks_text(s) == block_text(s.take(s.len() as int)) + blocks_text(
                s.skip(s.len() as int),
            ));
        }
        let ghost before = out@;
        emit_block(&mut out, &ls, start, ls.len());
        assert(out@ =~= before + blocks_text(s));
    }
    let t = trim_chars(out.as_slice());
    string_of(t.as_slice())
}

// ---------------------------------------------------------------------------
// The context of a period
// ---------------------------------------------------------------------------

/// Dated records as values.
pub open spec fn dated_views(dated: Seq<(Day, &Document)>) -> Seq<(Day, DocumentModel)> {
    dated.map_values(|e: (Day, &Document)| (e.0, e.1@))
}

/// `d` lies in the period, or there is no period.
pub open spec fn in_period(d: Day, range: Option<(Day, Day)>) -> bool {
    match range {
        None => true,
        Some((start, end)) => day_le(start, d) && day_le(d, end),
    }
}

/// The dated records that lie in the period, in their given order.
pub open spec fn in_period_entries(dated: Seq<(Day, DocumentModel)>, range: Option<(Day, Day)>) -> Seq<
    (Day, DocumentModel),
>
    decreases dated.len(),
{
    if dated.len() == 0 {
        seq![]
    } else {
        in_period_entries(dated.drop_last(), range) + if in_period(dated.last().0, range) {
            seq![dated.last()]
        } else {
            seq![]
        }
    }
}

/// Review order: by day, then journals, decisions, learnings and others, then
/// by path.
pub open spec fn entry_le(a: (Day, DocumentModel), b: (Day, DocumentModel)) -> bool {
    if a.0 != b.0 {
        day_le(a.0, b.0)
    } else if kind_rank(a.1.kind) != kind_rank(b.1.kind) {
        kind_rank(a.1.kind) < kind_rank(b.1.kind)
    } else {
        path_le(a.1.path, b.1.path)
    }
}

/// Entries in review order.
pub open spec fn entries_sorted(s: Seq<(Day, DocumentModel)>) -> bool {
    forall|i: int, j: int| 0 <= i < j < s.len() ==> entry_le(s[i], s[j])
}

proof fn lemma_entry_le_total(a: (Day, DocumentModel), b: (Day, DocumentModel))
    ensures
        entry_le(a, b) || entry_le(b, a),
{
    lemma_path_le_total(a.1.path, b.1.path);
}

proof fn lemma_entry_le_trans(a: (Day, DocumentModel), b: (Day, DocumentModel), c: (Day, DocumentModel))
    requires
        entry_le(a, b),
        entry_le(b, c),
    ensures
        entry_le(a, c),
{
    if a.0 == b.0 && b.0 == c.0 && kind_rank(a.1.kind) == kind_rank(b.1.kind) && kind_rank(b.1.kind)
        == kind_rank(c.1.kind) {
        lemma_path_le_trans(a.1.path, b.1.path, c.1.path);
    }
    if a.0 != b.0 && b.0 != c.0 && a.0 == c.0 {
        assert(a.0 == b.0);
    }
}

/// What a record is, as a review heading names it.
pub open spec fn kind_label(d: DocumentModel) -> Seq<char> {
    if d.kind == "journal"@ {
        "Journal"@
    } else if d.kind == "decision"@ {
        match d.status {
            Some(s) => "Decision ("@ + s + "): "@ + d.heading,
            None => "Decision: "@ + d.heading,
        }
    } else if d.kind == "learning"@ {
        "Learning: "@ + d.heading
    } else {
        d.kind
    }
}

/// A reviewed body after its heading: nothing when empty, else a blank line,
/// the body, and a final newline.
pub open spec fn body_block(b: Seq<char>) -> Seq<char> {
    if b.len() == 0 {
        seq![]
    } else {
        "\n"@ + b + if b.last() == '\n' {
            Seq::<char>::empty()
        } else {
            "\n"@
        }
    }
}

/// The entries of a review: a `## day` heading whenever the day changes,
/// then each record's `### ` heading and reviewed body.
pub open spec fn entries_text(sel: Seq<(Day, DocumentModel)>) -> Seq<char>
    decreases sel.len(),
{
    if sel.len() == 0 {
        seq![]
    } else {
        let e = sel.last();
        entries_text(sel.drop_last()) + (if sel.len() == 1 || sel[sel.len() - 2].0 != e.0 {
            "\n## "@ + day_text(e.0) + "\n"@
        } else {
            Seq::<char>::empty()
        }) + "\n### "@ + kind_label(e.1) + "\n"@ + body_block(reviewed_body(e.1.body))
    }
}

/// The Markdown context of a period, given its records in review order.
pub open spec fn context_text(label: Seq<char>, sel: Seq<(Day, DocumentModel)>) -> Seq<char> {
    "# Tincan review: "@ + label + "\n"@ + if sel.len() == 0 {
        "\nNo Tincan records were created in this period.\n"@
    } else {
        entries_text(sel)
    }
}

fn entry_before(a: (Day, &Document), b: (Day, &Document)) -> (r: bool)
    ensures
        r == entry_le((a.0, a.1@), (b.0, b.1@)),
{
    if a.0 != b.0 {
        is_day_le(a.0, b.0)
    } else {
        let ra = review_kind_order(a.1);
        let rb = review_kind_order(b.1);
        if ra != rb {
            ra < rb
        } else {
            le_path(a.1.path.as_str(), b.1.path.as_str())
        }
    }
}

/// Review order of dated records.
pub open spec fn review_order() -> spec_fn((Day, DocumentModel), (Day, DocumentModel)) -> bool {
    |a: (Day, DocumentModel), b: (Day, DocumentModel)| entry_le(a, b)
}

fn sort_entries<'a>(items: Vec<(Day, &'a Document)>) -> (out: Vec<(Day, &'a Document)>)
    ensures
        dated_views(out@) == stable_sorted(dated_views(items@), review_order()),
        entries_sorted(dated_views(out@)),
        dated_views(out@).to_multiset() == dated_views(items@).to_multiset(),
{
    broadcast use vstd::seq_lib::group_to_multiset_ensures, vstd::multiset::group_multiset_axioms;
    let mut out: Vec<(Day, &'a Document)> = Vec::new();
    let mut rest = items;
    let ghost original = dated_views(rest@);
    let ghost n = original.len();
    assert(dated_views(out@).to_multiset() =~= vstd::multiset::Multiset::empty());
    assert(original.take(0) =~= Seq::<(Day, DocumentModel)>::empty());
    assert(original.skip(0) =~= original);
    while rest.len() > 0
        invariant
            n == original.len(),
            rest.len() <= n,
            dated_views(rest@) == original.skip(n - rest.len()),
            dated_views(out@) == stable_sorted(original.take(n - rest.len()), review_order()),
            entries_sorted(dated_views(out@)),
            dated_views(out@).to_multiset().add(dated_views(rest@).to_multiset())
                == original.to_multiset(),
        decreases rest.len(),
    {
        let ghost before_rest = dated_views(rest@);
        let ghost done = n - rest.len();
        let e = rest.remove(0);
        let ghost ev = (e.0, e.1@);
        assert(dated_views(rest@) =~= before_rest.drop_first());
        assert(before_rest[0] == ev);
        assert(before_rest =~= seq![ev] + dated_views(rest@));
        assert(original[done] == ev);
        let mut k: usize = 0;
        while k < out.len() && entry_before(out[k], e)
            invariant
                k <= out.len(),
                ev == (e.0, e.1@),
                forall|m: int| 0 <= m < k ==> entry_le(#[trigger] dated_views(out@)[m], ev),
            decreases out.len() - k,
        {
            k = k + 1;
        }
        let ghost before = dated_views(out@);
        proof {
            if k < out.len() {
                lemma_entry_le_total(before[k as int], ev);
            }
            assert forall|m: int| 0 <= m < k implies #[trigger] (review_order())(before[m], ev) by {}
            lemma_insertion_slot(before, ev, review_order(), k as int);
            let t = original.take(done + 1);
            assert(t.drop_last() =~= original.take(done));
            assert(t.last() == ev);
        }
        out.insert(k, e);
        let ghost after = dated_views(out@);
        assert(after =~= before.insert(k as int, ev));
        proof {
            assert forall|i: int, j: int| 0 <= i < j < after.len() implies entry_le(
                after[i],
                after[j],
            ) by {
                if j < k {
                } else if j == k {
                } else if i == k {
                    if j - 1 > k {
                        lemma_entry_le_trans(ev, before[k as int], before[j - 1]);
                    }
                } else if i < k {
                    if j - 1 == k {
                        lemma_entry_le_trans(before[i], ev, before[k as int]);
                    }
                }
            }
            assert(before.insert(k as int, ev) =~= before.take(k as int) + seq![ev] + before.skip(
                k as int,
            ));
            assert(before =~= before.take(k as int) + before.skip(k as int));
            vstd::seq_lib::lemma_multiset_commutative(
                before.take(k as int) + seq![ev],
                before.skip(k as int),
            );
            vstd::seq_lib::lemma_multiset_commutative(before.take(k as int), seq![ev]);
            vstd::seq_lib::lemma_multiset_commutative(before.take(k as int), before.skip(k as int));
            vstd::seq_lib::lemma_multiset_commutative(seq![ev], dated_views(rest@));
            let mt = before.take(k as int).to_multiset();
            let ms = before.skip(k as int).to_multiset();
            let md = seq![ev].to_multiset();
            assert(after.to_multiset() =~= mt.add(md).add(ms));
            assert(before.to_multiset() =~= mt.add(ms));
            assert(before_rest.to_multiset() =~= md.add(dated_views(rest@).to_multiset()));
            assert(after.to_multiset().add(dated_views(rest@).to_multiset()) =~= before.to_multiset().add(
                before_rest.to_multiset(),
            ));
            assert(dated_views(rest@) =~= original.skip(done + 1));
        }
    }
    assert(dated_views(rest@) =~= Seq::<(Day, DocumentModel)>::empty());
    assert(original.take(n as int) =~= original);
    out
}

fn push_kind_label(out: &mut Vec<char>, d: &Document)
    ensures
        final(out)@ == old(out)@ + kind_label(d@),
{
    let kind = chars_of(d.kind.as_str());
    if text_is(kind.as_slice(), "journal") {
        push_str(out, "Journal");
    } else if text_is(kind.as_slice(), "decision") {
        match &d.status {
            Some(s) => {
                push_str(out, "Decision (");
                push_str(out, s.as_str());
                push_str(out, "): ");
            },
            None => {
                push_str(out, "Decision: ");
            },
        }
        push_str(out, d.heading.as_str());
    } else if text_is(kind.as_slice(), "learning") {
        push_str(out, "Learning: ");
        push_str(out, d.heading.as_str());
    } else {
        push_str(out, d.kind.as_str());
    }
}

/// The text one record adds to a review.
pub open spec fn entry_text(e: (Day, DocumentModel), new_day: bool) -> Seq<char> {
    (if new_day {
        "\n## "@ + day_text(e.0) + "\n"@
    } else {
        Seq::<char>::empty()
    }) + "\n### "@ + kind_label(e.1) + "\n"@ + body_block(reviewed_body(e.1.body))
}

fn push_entry(out: &mut Vec<char>, e: (Day, &Document), new_day: bool)
    ensures
        final(out)@ == old(out)@ + entry_text((e.0, e.1@), new_day),
{
    let ghost start = out@;
    if new_day {
        push_str(out, "\n## ");
        push_day(out, e.0);
        push_str(out, "\n");
    }
    push_str(out, "\n### ");
    push_kind_label(out, e.1);
    push_str(out, "\n");
    let body = review_body(e.1.body.as_str());
    let bc = chars_of(body.as_str());
    if bc.len() > 0 {
        push_str(out, "\n");
        push_all(out, bc.as_slice());
        if bc[bc.len() - 1] != '\n' {
            push_str(out, "\n");
        }
    }
    assert(out@ =~= start + entry_text((e.0, e.1@), new_day));
}

/// Markdown context for a retrospective: the records of the period in review
/// order, grouped under their days, each with its reviewed body.
pub fn render_review_context(dated: &[(Day, &Document)], range: Option<(Day, Day)>, label: &str) -> (r: String)
    ensures
        r@ == context_text(label@, stable_sorted(in_period_entries(dated_views(dated@), range), review_order())),
        exists|sel: Seq<(Day, DocumentModel)>|
            #![trigger context_text(label@, sel)]
            entries_sorted(sel) && sel.to_multiset() == in_period_entries(
                dated_views(dated@),
                range,
            ).to_multiset() && r@ == context_text(label@, sel),
{
    let ghost dv = dated_views(dated@);
    let mut selected: Vec<(Day, &Document)> = Vec::new();
    let mut i: usize = 0;
    while i < dated.len()
        invariant
            i <= dated.len(),
            dv == dated_views(dated@),
            dated_views(selected@) == in_period_entries(dv.take(i as int), range),
        decreases dated.len() - i,
    {
        let e = dated[i];
        assert(dv.take(i + 1).drop_last() =~= dv.take(i as int));
        assert(dv.take(i + 1).last() == (e.0, e.1@));
        let keep = match range {
            None => true,
            Some((start, end)) => is_day_le(start, e.0) && is_day_le(e.0, end),
        };
        let ghost prev = dated_views(selected@);
        if keep {
            selected.push(e);
            assert(dated_views(selected@) =~= prev + seq![(e.0, e.1@)]);
        } else {
            assert(dated_views(selected@) =~= prev + Seq::<(Day, DocumentModel)>::empty());
        }
        i = i + 1;
    }
    assert(dv.take(dated.len() as int) =~= dv);
    let sorted = sort_entries(selected);
    let ghost sel = dated_views(sorted@);
    let mut out: Vec<char> = Vec::new();
    push_str(&mut out, "# Tincan review: ");
    push_str(&mut out, label);
    push_str(&mut out, "\n");
    let ghost head = out@;
    if sorted.len() == 0 {
        push_str(&mut out, "\nNo Tincan records were created in this period.\n");
        assert(out@ =~= context_text(label@, sel));
        return string_of(out.as_slice());
    }
    let mut j: usize = 0;
    while j < sorted.len()
        invariant
            j <= sorted.len(),
            sel == dated_views(sorted@),
            out@ == head + entries_text(sel.take(j as int)),
        decreases sorted.len() - j,
    {
        let e = sorted[j];
        let ghost part = sel.take(j + 1);
        assert(part.drop_last() =~= sel.take(j as int));
        assert(part.last() == (e.0, e.1@));
        let new_day = j == 0 || sorted[j - 1].0 != e.0;
        if j > 0 {
            assert(part[part.len() - 2] == sel[j - 1]);
        }
        push_entry(&mut out, e, new_day);
        assert(out@ =~= head + entries_text(part));
        j = j + 1;
    }
    assert(sel.take(sorted.len() as int) =~= sel);
    assert(out@ =~= context_text(label@, sel));
    string_of(out.as_slice())
}

// ---------------------------------------------------------------------------
// The overview of all history
// ---------------------------------------------------------------------------

/// How many dated records of `kind` belong to `year`.
pub open spec fn year_count(ds: Seq<(Day, DocumentModel)>, year: int, kind: Seq<char>) -> nat
    decreases ds.len(),
{
    if ds.len() == 0 {
        0
    } else {
        year_count(ds.drop_last(), year, kind) + if ds.last().0.year == year && ds.last().1.kind
            == kind {
            1nat
        } else {
            0nat
        }
    }
}

/// The earliest day among dated records.
pub open spec fn earliest(ds: Seq<(Day, DocumentModel)>) -> Day
    decreases ds.len(),
{
    if ds.len() <= 1 {
        ds[0].0
    } else {
        let m = earliest(ds.drop_last());
        if day_le(m, ds.last().0) {
            m
        } else {
            ds.last().0
        }
    }
}

/// The latest day among dated records.
pub open spec fn latest(ds: Seq<(Day, DocumentModel)>) -> Day
    decreases ds.len(),
{
    if ds.len() <= 1 {
        ds[0].0
    } else {
        let m = latest(ds.drop_last());
        if day_le(ds.last().0, m) {
            m
        } else {
            ds.last().0
        }
    }
}

/// `n` spaces.
pub open spec fn spaces(n: nat) -> Seq<char> {
    Seq::new(n, |i: int| ' ')
}

/// `s` followed by spaces up to `w` characters (`{:<w}`).
pub open spec fn left_aligned(s: Seq<char>, w: nat) -> Seq<char> {
    if s.len() >= w {
        s
    } else {
        s + spaces((w - s.len()) as nat)
    }
}

/// `s` preceded by spaces up to `w` characters (`{:>w}`).
pub open spec fn right_aligned(s: Seq<char>, w: nat) -> Seq<char> {
    if s.len() >= w {
        s
    } else {
        spaces((w - s.len()) as nat) + s
    }
}

/// One year's row of the overview table.
pub open spec fn year_row(ds: Seq<(Day, DocumentModel)>, y: int) -> Seq<char> {
    left_aligned(int_text(y), 6) + " "@ + right_aligned(decimal(year_count(ds, y, "journal"@)), 12)
        + " "@ + right_aligned(decimal(year_count(ds, y, "decision"@)), 11) + " "@ + right_aligned(
        decimal(year_count(ds, y, "learning"@)),
        11,
    ) + "\n"@
}

/// The rows of the given years.
pub open spec fn year_rows(ds: Seq<(Day, DocumentModel)>, ys: Seq<int>) -> Seq<char>
    decreases ys.len(),
{
    if ys.len() == 0 {
        seq![]
    } else {
        year_rows(ds, ys.drop_last()) + year_row(ds, ys.last())
    }
}

/// `ys` are the years of the dated records, each once, in increasing order.
pub open spec fn lists_years(ds: Seq<(Day, DocumentModel)>, ys: Seq<int>) -> bool {
    &&& forall|i: int, j: int| 0 <= i < j < ys.len() ==> ys[i] < ys[j]
    &&& forall|i: int|
        0 <= i < ys.len() ==> exists|k: int| 0 <= k < ds.len() && ds[k].0.year == #[trigger] ys[i]
    &&& forall|k: int| 0 <= k < ds.len() ==> ys.contains(#[trigger] ds[k].0.year as int)
}

/// The commands the overview suggests.
pub open spec fn overview_usage() -> Seq<char> {
    "\nUse:\n  tincan review --month 2025-06\n  tincan review --year 2025\n  tincan review --quarter 2025-Q3\n  tincan review --all-time\n"@
}

/// The overview of all history: first and last day, then one row per year.
pub open spec fn overview_text(ds: Seq<(Day, DocumentModel)>, ys: Seq<int>) -> Seq<char> {
    "Review history: "@ + day_text(earliest(ds)) + " through "@ + day_text(latest(ds)) + "\n\n"@
        + "Year   Journal days   Decisions   Learnings\n"@ + year_rows(ds, ys) + overview_usage()
}

fn push_spaces(out: &mut Vec<char>, n: usize)
    ensures
        final(out)@ == old(out)@ + spaces(n as nat),
{
    let ghost start = out@;
    let mut k: usize = 0;
    while k < n
        invariant
            k <= n,
            out@ == start + spaces(k as nat),
        decreases n - k,
    {
        out.push(' ');
        assert(out@ =~= start + spaces((k + 1) as nat));
        k = k + 1;
    }
}

fn push_right_aligned(out: &mut Vec<char>, n: usize, w: usize)
    ensures
        final(out)@ == old(out)@ + right_aligned(decimal(n as nat), w as nat),
{
    let digits = crate::numbers::decimal_chars(n as u64);
    if digits.len() < w {
        push_spaces(out, w - digits.len());
    }
    push_all(out, digits.as_slice());
    assert(out@ =~= old(out)@ + right_aligned(decimal(n as nat), w as nat));
}

fn count_kind(dated: &[(Day, &Document)], year: i32, kind: &str) -> (c: usize)
    ensures
        c == year_count(dated_views(dated@), year as int, kind@),
{
    let ghost dv = dated_views(dated@);
    let k = chars_of(kind);
    let mut c: usize = 0;
    let mut i: usize = 0;
    while i < dated.len()
        invariant
            i <= dated.len(),
            dv == dated_views(dated@),
            k@ == kind@,
            c == year_count(dv.take(i as int), year as int, kind@),
            c <= i,
        decreases dated.len() - i,
    {
        assert(dv.take(i + 1).drop_last() =~= dv.take(i as int));
        assert(dv.take(i + 1).last() == (dated@[i as int].0, dated@[i as int].1@));
        let dk = chars_of(dated[i].1.kind.as_str());
        if dated[i].0.year == year && same(dk.as_slice(), k.as_slice()) {
            c = c + 1;
        }
        i = i + 1;
    }
    assert(dv.take(dated.len() as int) =~= dv);
    c
}

fn push_year_row(out: &mut Vec<char>, dated: &[(Day, &Document)], n: i32)
    ensures
        final(out)@ == old(out)@ + year_row(dated_views(dated@), n as int),
{
    let j = count_kind(dated, n, "journal");
    let d = count_kind(dated, n, "decision");
    let l = count_kind(dated, n, "learning");
    let ghost before = out@;
    let mut yt: Vec<char> = Vec::new();
    push_int(&mut yt, n as i64);
    push_all(out, yt.as_slice());
    if yt.len() < 6 {
        push_spaces(out, 6 - yt.len());
    }
    push_str(out, " ");
    push_right_aligned(out, j, 12);
    push_str(out, " ");
    push_right_aligned(out, d, 11);
    push_str(out, " ");
    push_right_aligned(out, l, 11);
    push_str(out, "\n");
    assert(out@ =~= before + year_row(dated_views(dated@), n as int));
}

/// The smallest year after `prev` among dated records, if any.
fn next_year(dated: &[(Day, &Document)], prev: i64) -> (next: Option<i32>)
    ensures
        next is None ==> forall|m: int|
            0 <= m < dated.len() ==> #[trigger] dated@[m].0.year <= prev,
        next is Some ==> prev < next->0 && exists|m: int|
            0 <= m < dated.len() && #[trigger] dated@[m].0.year == next->0,
        next is Some ==> forall|m: int|
            0 <= m < dated.len() && #[trigger] dated@[m].0.year > prev ==> next->0
                <= dated@[m].0.year,
{
    let mut next: Option<i32> = None;
    let mut k: usize = 0;
    while k < dated.len()
        invariant
            k <= dated.len(),
            next is None ==> forall|m: int| 0 <= m < k ==> #[trigger] dated@[m].0.year <= prev,
            next is Some ==> prev < next->0 && exists|m: int|
                0 <= m < k && #[trigger] dated@[m].0.year == next->0,
            next is Some ==> forall|m: int|
                0 <= m < k && #[trigger] dated@[m].0.year > prev ==> next->0 <= dated@[m].0.year,
        decreases dated.len() - k,
    {
        let y = dated[k].0.year;
        if (y as i64) > prev {
            match next {
                None => {
                    next = Some(y);
                },
                Some(n) => {
                    if y < n {
                        next = Some(y);
                    }
                },
            }
        }
        k = k + 1;
    }
    next
}

/// Adding the next year keeps the listed years complete up to it.
proof fn lemma_years_grow(dv: Seq<(Day, DocumentModel)>, ys: Seq<int>, prev: int, n: int)
    requires
        prev < n,
        exists|k: int| 0 <= k < dv.len() && dv[k].0.year == n,
        forall|k: int| 0 <= k < dv.len() && dv[k].0.year > prev ==> n <= #[trigger] dv[k].0.year,
        forall|a: int| 0 <= a < ys.len() ==> exists|k: int|
            0 <= k < dv.len() && dv[k].0.year == #[trigger] ys[a],
        forall|k: int|
            0 <= k < dv.len() && dv[k].0.year <= prev ==> ys.contains(#[trigger] dv[k].0.year as int),
    ensures
        forall|a: int| 0 <= a < ys.push(n).len() ==> exists|k: int|
            0 <= k < dv.len() && dv[k].0.year == #[trigger] ys.push(n)[a],
        forall|k: int|
            0 <= k < dv.len() && dv[k].0.year <= n ==> ys.push(n).contains(#[trigger] dv[k].0.year as int),
{
    let ys2 = ys.push(n);
    assert forall|k: int| 0 <= k < dv.len() && dv[k].0.year <= n implies ys2.contains(
        #[trigger] dv[k].0.year as int,
    ) by {
        if dv[k].0.year <= prev {
            assert(ys.contains(dv[k].0.year as int));
            let w = choose|w: int| 0 <= w < ys.len() && ys[w] == dv[k].0.year as int;
            assert(ys2[w] == ys[w]);
        } else {
            assert(ys2[ys.len() as int] == n);
        }
    }
    assert forall|a: int| 0 <= a < ys2.len() implies exists|k: int|
        0 <= k < dv.len() && dv[k].0.year == #[trigger] ys2[a] by {
        if a < ys.len() {
            assert(ys2[a] == ys[a]);
        }
    }
}

/// Two strictly increasing lists holding the same values are the same list.
proof fn lemma_increasing_unique(a: Seq<int>, b: Seq<int>)
    requires
        forall|i: int, j: int| 0 <= i < j < a.len() ==> a[i] < a[j],
        forall|i: int, j: int| 0 <= i < j < b.len() ==> b[i] < b[j],
        forall|x: int| a.contains(x) <==> b.contains(x),
    ensures
        a == b,
    decreases a.len(),
{
    if a.len() == 0 {
        if b.len() > 0 {
            assert(b.contains(b[0]));
        }
        assert(a =~= b);
    } else {
        assert(a.contains(a[0]));
        assert(b.len() > 0);
        assert(b.contains(b[0]));
        let i = choose|i: int| 0 <= i < a.len() && a[i] == b[0];
        let j = choose|j: int| 0 <= j < b.len() && b[j] == a[0];
        if i > 0 {
            assert(a[0] < a[i]);
        }
        if j > 0 {
            assert(b[0] < b[j]);
        }
        assert(a[0] == b[0]);
        let a2 = a.drop_first();
        let b2 = b.drop_first();
        assert forall|x: int| a2.contains(x) <==> b2.contains(x) by {
            if a2.contains(x) {
                let k = choose|k: int| 0 <= k < a2.len() && a2[k] == x;
                assert(a[k + 1] == x);
                assert(a[0] < a[k + 1]);
                assert(a.contains(x));
                assert(b.contains(x));
                let m = choose|m: int| 0 <= m < b.len() && b[m] == x;
                assert(m != 0);
                assert(b2[m - 1] == x);
            }
            if b2.contains(x) {
                let k = choose|k: int| 0 <= k < b2.len() && b2[k] == x;
                assert(b[k + 1] == x);
                assert(b[0] < b[k + 1]);
                assert(b.contains(x));
                assert(a.contains(x));
                let m = choose|m: int| 0 <= m < a.len() && a[m] == x;
                assert(m != 0);
                assert(a2[m - 1] == x);
            }
        }
        lemma_increasing_unique(a2, b2);
        assert(a =~= seq![a[0]] + a2);
        assert(b =~= seq![b[0]] + b2);
    }
}

/// Only one list of years can list the years of the dated records.
proof fn lemma_years_unique(ds: Seq<(Day, DocumentModel)>, a: Seq<int>, b: Seq<int>)
    requires
        lists_years(ds, a),
        lists_years(ds, b),
    ensures
        a == b,
{
    assert forall|x: int| a.contains(x) <==> b.contains(x) by {
        if a.contains(x) {
            let i = choose|i: int| 0 <= i < a.len() && a[i] == x;
            let k = choose|k: int| 0 <= k < ds.len() && ds[k].0.year == #[trigger] a[i];
            assert(b.contains(ds[k].0.year as int));
        }
        if b.contains(x) {
            let i = choose|i: int| 0 <= i < b.len() && b[i] == x;
            let k = choose|k: int| 0 <= k < ds.len() && ds[k].0.year == #[trigger] b[i];
            assert(a.contains(ds[k].0.year as int));
        }
    }
    lemma_increasing_unique(a, b);
}

/// The years of the dated records, each once, in increasing order.
pub open spec fn review_years(ds: Seq<(Day, DocumentModel)>) -> Seq<int> {
    choose|ys: Seq<int>| lists_years(ds, ys)
}

/// The overview of the dated records of a workspace.
pub open spec fn overview_of(ds: Seq<(Day, DocumentModel)>) -> Seq<char> {
    if ds.len() == 0 {
        "No review history recorded.\n"@
    } else {
        overview_text(ds, review_years(ds))
    }
}

/// The overview of a workspace's history: its first and last recorded
/// days, and the journal, decision and learning counts of each year.
pub fn render_review_overview(dated: &[(Day, &Document)]) -> (r: String)
    ensures
        r@ == overview_of(dated_views(dated@)),
        dated.len() == 0 ==> r@ == "No review history recorded.\n"@,
        dated.len() > 0 ==> exists|ys: Seq<int>|
            #![trigger overview_text(dated_views(dated@), ys)]
            lists_years(dated_views(dated@), ys) && r@ == overview_text(dated_views(dated@), ys),
{
    let ghost dv = dated_views(dated@);
    if dated.len() == 0 {
        return string_of(chars_of("No review history recorded.\n").as_slice());
    }
    let mut first = dated[0].0;
    let mut last = dated[0].0;
    let mut i: usize = 1;
    assert(dv.take(1).len() == 1);
    while i < dated.len()
        invariant
            1 <= i <= dated.len(),
            dv == dated_views(dated@),
            first == earliest(dv.take(i as int)),
            last == latest(dv.take(i as int)),
        decreases dated.len() - i,
    {
        assert(dv.take(i + 1).drop_last() =~= dv.take(i as int));
        assert(dv.take(i + 1).last().0 == dated@[i as int].0);
        if !is_day_le(first, dated[i].0) {
            first = dated[i].0;
        }
        if !is_day_le(dated[i].0, last) {
            last = dated[i].0;
        }
        i = i + 1;
    }
    assert(dv.take(dated.len() as int) =~= dv);
    let mut out: Vec<char> = Vec::new();
    push_str(&mut out, "Review history: ");
    push_day(&mut out, first);
    push_str(&mut out, " through ");
    push_day(&mut out, last);
    push_str(&mut out, "\n\n");
    push_str(&mut out, "Year   Journal days   Decisions   Learnings\n");
    let ghost head = out@;
    let mut prev: i64 = -2147483649i64;
    let mut more = true;
    let ghost mut ys: Seq<int> = seq![];
    while more
        invariant
            dv == dated_views(dated@),
            -2147483649 <= prev <= 2147483647,
            forall|a: int, b: int| 0 <= a < b < ys.len() ==> ys[a] < ys[b],
            forall|a: int| 0 <= a < ys.len() ==> ys[a] <= prev,
            forall|a: int|
                0 <= a < ys.len() ==> exists|k: int|
                    0 <= k < dv.len() && dv[k].0.year == #[trigger] ys[a],
            forall|k: int|
                0 <= k < dv.len() && dv[k].0.year <= prev ==> ys.contains(#[trigger] dv[k].0.year as int),
            !more ==> forall|k: int| 0 <= k < dv.len() ==> #[trigger] dv[k].0.year <= prev,
            out@ == head + year_rows(dv, ys),
        decreases 2147483648 - prev, if more { 1int } else { 0int },
    {
        let next = next_year(dated, prev);
        assert(forall|k: int| 0 <= k < dv.len() ==> #[trigger] dv[k].0 == dated@[k].0);
        match next {
            None => {
                more = false;
            },
            Some(n) => {
                push_year_row(&mut out, dated, n);
                proof {
                    let m = choose|m: int| 0 <= m < dated.len() && #[trigger] dated@[m].0.year == n;
                    assert(dv[m].0 == dated@[m].0);
                    lemma_years_grow(dv, ys, prev as int, n as int);
                    assert(ys.push(n as int).drop_last() =~= ys);
                    ys = ys.push(n as int);
                }
                prev = n as i64;
            },
        }
    }
    push_str(&mut out, "\nUse:\n  tincan review --month 2025-06\n  tincan review --year 2025\n  tincan review --quarter 2025-Q3\n  tincan review --all-time\n");
    proof {
        assert forall|k: int| 0 <= k < dv.len() implies ys.contains(#[trigger] dv[k].0.year as int) by {
            assert(dv[k].0.year <= prev);
        }
        assert(lists_years(dv, ys));
        lemma_years_unique(dv, ys, review_years(dv));
    }
    assert(out@ =~= overview_text(dv, ys));
    string_of(out.as_slice())
}

// ---------------------------------------------------------------------------
// Reviews across projects
// ---------------------------------------------------------------------------

/// A project's review lines as they appear inside a combined review: its own
/// `# Tincan review:` title dropped, headings one level deeper.
pub open spec fn section_lines(ls: Seq<Seq<char>>) -> Seq<char>
    decreases ls.len(),
{
    if ls.len() == 0 {
        seq![]
    } else {
        let line = ls.last();
        section_lines(ls.drop_last()) + if ls.len() == 1 && has_prefix(line, "# Tincan review:"@) {
            Seq::<char>::empty()
        } else {
            "\n"@ + (if has_prefix(line, "#"@) {
                "#"@
            } else {
                Seq::<char>::empty()
            }) + line
        }
    }
}

/// One project's part of a combined review.
pub open spec fn project_section(name: Seq<char>, path: Seq<char>, content: Seq<char>) -> Seq<char> {
    "\n## "@ + name + "\n\nPath: "@ + crate::util::displayed_path(path) + "\n"@ + section_lines(
        lines(content),
    ) + "\n"@
}

/// One project's part of a combined review: its name, its path, and its own
/// review one heading level deeper.
pub fn render_project_review_section(name: &str, path: &str, content: &str) -> (r: String)
    ensures
        r@ == project_section(name@, path@, content@),
{
    let mut out: Vec<char> = Vec::new();
    push_str(&mut out, "\n## ");
    push_str(&mut out, name);
    push_str(&mut out, "\n\nPath: ");
    let shown = crate::util::display_path(path);
    push_str(&mut out, shown.as_str());
    push_str(&mut out, "\n");
    let ghost head = out@;
    let c = chars_of(content);
    let ls = lines_of(c.as_slice());
    let ghost lv = views(ls@);
    let mut i: usize = 0;
    while i < ls.len()
        invariant
            i <= ls.len(),
            lv == views(ls@),
            out@ == head + section_lines(lv.take(i as int)),
        decreases ls.len() - i,
    {
        assert(lv.take(i + 1).drop_last() =~= lv.take(i as int));
        assert(lv.take(i + 1).last() == ls@[i as int]@);
        let skip_title = i == 0 && starts_with_str(ls[i].as_slice(), "# Tincan review:");
        if !skip_title {
            out.push('\n');
            if starts_with_str(ls[i].as_slice(), "#") {
                out.push('#');
            }
            push_all(&mut out, ls[i].as_slice());
        }
        proof {
            reveal_strlit("\n");
            reveal_strlit("#");
        }
        assert(out@ =~= head + section_lines(lv.take(i + 1)));
        i = i + 1;
    }
    assert(lv.take(ls.len() as int) =~= lv);
    out.push('\n');
    proof {
        reveal_strlit("\n");
    }
    assert(out@ =~= project_section(name@, path@, content@));
    string_of(out.as_slice())
}

/// The name a combined review gives a project: its directory's name.
pub open spec fn project_name(path: Seq<char>) -> Seq<char> {
    match crate::document::file_name_of(path) {
        Some(n) => n,
        None => "Unnamed project"@,
    }
}

/// The name a combined review gives the project at `path`.
pub fn project_display_name(path: &str) -> (r: String)
    ensures
        r@ == project_name(path@),
{
    let p = chars_of(path);
    match crate::document::file_name(p.as_slice()) {
        Some(name) => string_of(name.as_slice()),
        None => string_of(chars_of("Unnamed project").as_slice()),
    }
}

/// A project that a combined review could not read: its name and path, and
/// the reason when there is one.
pub open spec fn unavailable_entry(name: Seq<char>, path: Seq<char>, error: Option<Seq<char>>) -> Seq<char> {
    "- "@ + name + ": "@ + crate::util::displayed_path(path) + match error {
        Some(e) => " ("@ + e + ")"@,
        None => Seq::<char>::empty(),
    }
}

/// The line listing a project that a combined review could not read.
pub fn unavailable_project(name: &str, path: &str, error: Option<&str>) -> (r: String)
    ensures
        r@ == unavailable_entry(name@, path@, match error {
            Some(e) => Some(e@),
            None => None,
        }),
{
    let mut out = chars_of("- ");
    push_str(&mut out, name);
    push_str(&mut out, ": ");
    let shown = crate::util::display_path(path);
    push_str(&mut out, shown.as_str());
    match error {
        Some(e) => {
            push_str(&mut out, " (");
            push_str(&mut out, e);
            push_str(&mut out, ")");
        },
        None => {},
    }
    string_of(out.as_slice())
}

/// The line listing a registry entry that could not be read.
pub fn invalid_registry_entry(problem: &str) -> (r: String)
    ensures
        r@ == "- Invalid registry entry: "@ + problem@,
{
    let mut out = chars_of("- Invalid registry entry: ");
    push_str(&mut out, problem);
    string_of(out.as_slice())
}

/// The label of a combined review: the period's label, or `history
/// overview` for the overview.
pub open spec fn combined_label(scope: ReviewScope) -> Result<Seq<char>, Seq<char>> {
    match scope {
        ReviewScope::Overview => Ok("history overview"@),
        _ => match review_period(scope) {
            Ok((_, label)) => Ok(label),
            Err(e) => Err(e),
        },
    }
}

/// The label of a review across all projects.
pub fn combined_review_label(scope: &ReviewScope) -> (r: Result<String, String>)
    requires
        match *scope {
            ReviewScope::Overview => true,
            _ => period_scope(*scope),
        },
    ensures
        match combined_label(*scope) {
            Ok(l) => r is Ok && r->Ok_0@ == l,
            Err(e) => r is Err && r->Err_0@ == e,
        },
{
    match *scope {
        ReviewScope::Overview => Ok(string_of(chars_of("history overview").as_slice())),
        _ => {
            let (_, label) = review_range(scope)?;
            Ok(label)
        },
    }
}

/// The concatenation of texts.
pub open spec fn concat(parts: Seq<Seq<char>>) -> Seq<char>
    decreases parts.len(),
{
    if parts.len() == 0 {
        seq![]
    } else {
        concat(parts.drop_last()) + parts.last()
    }
}

/// A review across all projects: a title, each readable project's section,
/// and the projects that could not be read.
pub open spec fn combined_review(label: Seq<char>, sections: Seq<Seq<char>>, unavailable: Seq<Seq<char>>) -> Seq<char> {
    "# Tincan review: "@ + label + " \u{2014} all projects\n"@ + concat(sections) + if unavailable.len() == 0 {
        Seq::<char>::empty()
    } else {
        "\n## Unavailable projects\n\n"@ + crate::text::join(unavailable, "\n"@)
            + "\n\nMoved projects reconnect when Tincan runs from the new location. Use `tincan projects` to inspect registry problems.\n"@
    }
}

/// Assembles a review across all projects.
pub fn render_combined_review(label: &str, sections: &Vec<String>, unavailable: &Vec<String>) -> (r: String)
    ensures
        r@ == combined_review(label@, crate::text::strs(sections@), crate::text::strs(unavailable@)),
{
    let ghost ss = crate::text::strs(sections@);
    let mut out = chars_of("# Tincan review: ");
    push_str(&mut out, label);
    push_str(&mut out, " \u{2014} all projects\n");
    let ghost head = out@;
    let mut i: usize = 0;
    while i < sections.len()
        invariant
            i <= sections.len(),
            ss == crate::text::strs(sections@),
            out@ == head + concat(ss.take(i as int)),
        decreases sections.len() - i,
    {
        assert(ss.take(i + 1).drop_last() =~= ss.take(i as int));
        assert(ss.take(i + 1).last() == sections@[i as int]@);
        push_str(&mut out, sections[i].as_str());
        i = i + 1;
    }
    assert(ss.take(sections.len() as int) =~= ss);
    if unavailable.len() > 0 {
        push_str(&mut out, "\n## Unavailable projects\n\n");
        let mut parts: Vec<Vec<char>> = Vec::new();
        let mut k: usize = 0;
        while k < unavailable.len()
            invariant
                k <= unavailable.len(),
                views(parts@) == crate::text::strs(unavailable@).take(k as int),
            decreases unavailable.len() - k,
        {
            let ghost prev = views(parts@);
            parts.push(chars_of(unavailable[k].as_str()));
            assert(views(parts@) =~= prev.push(unavailable@[k as int]@));
            assert(crate::text::strs(unavailable@).take(k + 1) =~= crate::text::strs(unavailable@).take(
                k as int,
            ).push(unavailable@[k as int]@));
            k = k + 1;
        }
        assert(crate::text::strs(unavailable@).take(unavailable.len() as int) =~= crate::text::strs(
            unavailable@,
        ));
        let sep = chars_of("\n");
        let joined = crate::text::join_with(&parts, sep.as_slice());
        push_all(&mut out, joined.as_slice());
        push_str(
            &mut out,
            "\n\nMoved projects reconnect when Tincan runs from the new location. Use `tincan projects` to inspect registry problems.\n",
        );
    }
    assert(out@ =~= combined_review(label@, ss, crate::text::strs(unavailable@)));
    string_of(out.as_slice())
}

/// A registered project as the caller found it: its path, whether it is
/// available there, and, when it is, what scanning its records gave.
pub struct ProjectInput {
    pub path: String,
    pub available: bool,
    pub scanned: Result<Vec<Document>, String>,
}

/// A project input as values.
pub open spec fn project_view(p: ProjectInput) -> (Seq<char>, bool, Result<Seq<DocumentModel>, Seq<char>>) {
    (p.path@, p.available, match p.scanned {
        Ok(docs) => Ok(crate::document::doc_views(docs@)),
        Err(e) => Err(e@),
    })
}

/// The review days of records, in order, or the error of the first record
/// whose day cannot be read.
pub open spec fn dated_of(docs: Seq<DocumentModel>) -> Result<Seq<(Day, DocumentModel)>, Seq<char>>
    decreases docs.len(),
{
    if docs.len() == 0 {
        Ok(seq![])
    } else {
        match dated_of(docs.drop_last()) {
            Err(e) => Err(e),
            Ok(ds) => match review_day_of(docs.last(), parsed_day(review_value(docs.last()))) {
                Ok(d) => Ok(ds.push((d, docs.last()))),
                Err(e) => Err(e),
            },
        }
    }
}

/// A project's own review: its overview, or the context of the period.
pub open spec fn project_content(scope: ReviewScope, label: Seq<char>, ds: Seq<(Day, DocumentModel)>) -> Seq<char> {
    match scope {
        ReviewScope::Overview => overview_of(ds),
        _ => context_text(
            label,
            stable_sorted(
                in_period_entries(
                    ds,
                    match review_period(scope) {
                        Ok((range, _)) => range,
                        Err(_) => None,
                    },
                ),
                review_order(),
            ),
        ),
    }
}

/// What a combined review makes of one project: its section, or the line
/// that reports it unavailable (not there, unreadable, or with a record
/// whose day cannot be read).
pub open spec fn project_outcome(
    scope: ReviewScope,
    label: Seq<char>,
    p: (Seq<char>, bool, Result<Seq<DocumentModel>, Seq<char>>),
) -> Result<Seq<char>, Seq<char>> {
    let name = project_name(p.0);
    if !p.1 {
        Err(unavailable_entry(name, p.0, None))
    } else {
        match p.2 {
            Err(e) => Err(unavailable_entry(name, p.0, Some(e))),
            Ok(docs) => match dated_of(docs) {
                Err(e) => Err(unavailable_entry(name, p.0, Some(e))),
                Ok(ds) => Ok(project_section(name, p.0, project_content(scope, label, ds))),
            },
        }
    }
}

/// The sections among the outcomes, in order.
pub open spec fn outcome_sections(os: Seq<Result<Seq<char>, Seq<char>>>) -> Seq<Seq<char>>
    decreases os.len(),
{
    if os.len() == 0 {
        seq![]
    } else {
        outcome_sections(os.drop_last()) + match os.last() {
            Ok(t) => seq![t],
            Err(_) => Seq::empty(),
        }
    }
}

/// The unavailable lines among the outcomes, in order.
pub open spec fn outcome_failures(os: Seq<Result<Seq<char>, Seq<char>>>) -> Seq<Seq<char>>
    decreases os.len(),
{
    if os.len() == 0 {
        seq![]
    } else {
        outcome_failures(os.drop_last()) + match os.last() {
            Ok(_) => Seq::empty(),
            Err(t) => seq![t],
        }
    }
}

/// The outcomes of the projects, in order.
pub open spec fn project_outcomes(
    scope: ReviewScope,
    label: Seq<char>,
    ps: Seq<(Seq<char>, bool, Result<Seq<DocumentModel>, Seq<char>>)>,
) -> Seq<Result<Seq<char>, Seq<char>>> {
    ps.map_values(|p: (Seq<char>, bool, Result<Seq<DocumentModel>, Seq<char>>)| project_outcome(scope, label, p))
}

/// The message when no project is registered.
pub open spec fn no_projects_message() -> Seq<char> {
    "no registered Tincan projects; run `tincan init` in a project first"@
}

/// A review across all registered projects: refused when the registry is
/// empty; otherwise the label of the scope (or its error), then each
/// readable project's section in order, and, as unavailable, every registry
/// problem followed by every project that could not be reviewed, in order.
pub open spec fn all_projects_text(
    scope: ReviewScope,
    ps: Seq<(Seq<char>, bool, Result<Seq<DocumentModel>, Seq<char>>)>,
    problems: Seq<Seq<char>>,
) -> Result<Seq<char>, Seq<char>> {
    if ps.len() == 0 && problems.len() == 0 {
        Err(no_projects_message())
    } else {
        match combined_label(scope) {
            Err(e) => Err(e),
            Ok(label) => {
                let os = project_outcomes(scope, label, ps);
                Ok(
                    combined_review(
                        label,
                        outcome_sections(os),
                        problems.map_values(|q: Seq<char>| "- Invalid registry entry: "@ + q)
                            + outcome_failures(os),
                    ),
                )
            },
        }
    }
}

/// The review days of `documents`, or the first error.
fn date_all(documents: &Vec<Document>) -> (r: Result<Vec<(Day, &Document)>, String>)
    ensures
        match dated_of(crate::document::doc_views(documents@)) {
            Ok(ds) => r is Ok && dated_views(r->Ok_0@) == ds,
            Err(e) => r is Err && r->Err_0@ == e,
        },
{
    let ghost dv = crate::document::doc_views(documents@);
    let mut out: Vec<(Day, &Document)> = Vec::new();
    let mut i: usize = 0;
    assert(dv.take(0) =~= Seq::<DocumentModel>::empty());
    assert(dated_views(out@) =~= Seq::<(Day, DocumentModel)>::empty());
    while i < documents.len()
        invariant
            i <= documents.len(),
            dv == crate::document::doc_views(documents@),
            dated_of(dv.take(i as int)) == Ok::<Seq<(Day, DocumentModel)>, Seq<char>>(dated_views(out@)),
        decreases documents.len() - i,
    {
        let ghost t = dv.take(i + 1);
        assert(t.drop_last() =~= dv.take(i as int));
        assert(t.last() == documents@[i as int]@);
        let d = &documents[i];
        match review_date(d) {
            Ok(day) => {
                let ghost prev = dated_views(out@);
                out.push((day, d));
                assert(dated_views(out@) =~= prev.push((day, d@)));
            },
            Err(e) => {
                proof {
                    assert(dated_of(dv.take(i + 1)) is Err);
                    lemma_dated_err(dv, i + 1);
                }
                return Err(e);
            },
        }
        i = i + 1;
    }
    assert(dv.take(documents.len() as int) =~= dv);
    Ok(out)
}

/// An error among the first records stays the error of them all.
proof fn lemma_dated_err(dv: Seq<DocumentModel>, k: int)
    requires
        0 <= k <= dv.len(),
        dated_of(dv.take(k)) is Err,
    ensures
        dated_of(dv) == dated_of(dv.take(k)),
    decreases dv.len() - k,
{
    if k < dv.len() {
        let t = dv.take(k + 1);
        assert(t.drop_last() =~= dv.take(k));
        lemma_dated_err(dv, k + 1);
    } else {
        assert(dv.take(k) =~= dv);
    }
}

/// A review across all registered projects, from the projects as the
/// caller found them and the registry entries it could not read.
pub fn all_projects_review(
    scope: &ReviewScope,
    projects: &Vec<ProjectInput>,
    registry_problems: &Vec<String>,
) -> (r: Result<String, String>)
    requires
        match *scope {
            ReviewScope::Overview => true,
            _ => period_scope(*scope),
        },
    ensures
        match all_projects_text(
            *scope,
            projects@.map_values(|p: ProjectInput| project_view(p)),
            crate::text::strs(registry_problems@),
        ) {
            Ok(t) => r is Ok && r->Ok_0@ == t,
            Err(e) => r is Err && r->Err_0@ == e,
        },
{
    let ghost pv = projects@.map_values(|p: ProjectInput| project_view(p));
    let ghost qs = crate::text::strs(registry_problems@);
    if projects.len() == 0 && registry_problems.len() == 0 {
        return Err(string_of(chars_of("no registered Tincan projects; run `tincan init` in a project first").as_slice()));
    }
    let overview = match *scope {
        ReviewScope::Overview => true,
        _ => false,
    };
    let (range, label) = if overview {
        (None, string_of(chars_of("history overview").as_slice()))
    } else {
        review_range(scope)?
    };
    let ghost os = project_outcomes(*scope, label@, pv);
    let mut unavailable: Vec<String> = Vec::new();
    let mut k: usize = 0;
    while k < registry_problems.len()
        invariant
            k <= registry_problems.len(),
            qs == crate::text::strs(registry_problems@),
            crate::text::strs(unavailable@) == qs.take(k as int).map_values(
                |q: Seq<char>| "- Invalid registry entry: "@ + q,
            ),
        decreases registry_problems.len() - k,
    {
        let ghost prev = crate::text::strs(unavailable@);
        unavailable.push(invalid_registry_entry(registry_problems[k].as_str()));
        assert(crate::text::strs(unavailable@) =~= prev.push("- Invalid registry entry: "@ + qs[k as int]));
        assert(qs.take(k + 1).map_values(|q: Seq<char>| "- Invalid registry entry: "@ + q) =~= qs.take(
            k as int,
        ).map_values(|q: Seq<char>| "- Invalid registry entry: "@ + q).push("- Invalid registry entry: "@ + qs[k as int]));
        k = k + 1;
    }
    assert(qs.take(registry_problems.len() as int) =~= qs);
    let ghost invalid = crate::text::strs(unavailable@);
    let mut sections: Vec<String> = Vec::new();
    let mut i: usize = 0;
    assert(os.take(0) =~= Seq::<Result<Seq<char>, Seq<char>>>::empty());
    while i < projects.len()
        invariant
            i <= projects.len(),
            pv == projects@.map_values(|p: ProjectInput| project_view(p)),
            os == project_outcomes(*scope, label@, pv),
            os.len() == projects.len(),
            overview == (*scope is Overview),
            !overview ==> review_period(*scope) == Ok::<(Option<(Day, Day)>, Seq<char>), Seq<char>>((range, label@)),
            overview ==> label@ == "history overview"@,
            crate::text::strs(sections@) == outcome_sections(os.take(i as int)),
            crate::text::strs(unavailable@) == invalid + outcome_failures(os.take(i as int)),
        decreases projects.len() - i,
    {
        let p = &projects[i];
        let ghost o = os[i as int];
        assert(o == project_outcome(*scope, label@, project_view(*p)));
        let ghost t = os.take(i + 1);
        assert(t.drop_last() =~= os.take(i as int));
        assert(t.last() == o);
        let name = project_display_name(p.path.as_str());
        let ghost prev_s = crate::text::strs(sections@);
        let ghost prev_u = crate::text::strs(unavailable@);
        if !p.available {
            unavailable.push(unavailable_project(name.as_str(), p.path.as_str(), None));
            assert(crate::text::strs(unavailable@) =~= prev_u.push(o->Err_0));
            assert(crate::text::strs(sections@) =~= prev_s + Seq::<Seq<char>>::empty());
        } else {
            match &p.scanned {
                Err(e) => {
                    unavailable.push(unavailable_project(name.as_str(), p.path.as_str(), Some(e.as_str())));
                    assert(crate::text::strs(unavailable@) =~= prev_u.push(o->Err_0));
                    assert(crate::text::strs(sections@) =~= prev_s + Seq::<Seq<char>>::empty());
                },
                Ok(docs) => {
                    match date_all(docs) {
                        Err(e) => {
                            unavailable.push(unavailable_project(name.as_str(), p.path.as_str(), Some(e.as_str())));
                            assert(crate::text::strs(unavailable@) =~= prev_u.push(o->Err_0));
                            assert(crate::text::strs(sections@) =~= prev_s + Seq::<Seq<char>>::empty());
                        },
                        Ok(dated) => {
                            let content = if overview {
                                render_review_overview(dated.as_slice())
                            } else {
                                render_review_context(dated.as_slice(), range, label.as_str())
                            };
                            assert(content@ == project_content(*scope, label@, dated_views(dated@)));
                            sections.push(render_project_review_section(name.as_str(), p.path.as_str(), content.as_str()));
                            assert(crate::text::strs(sections@) =~= prev_s.push(o->Ok_0));
                            assert(crate::text::strs(unavailable@) =~= prev_u + Seq::<Seq<char>>::empty());
                        },
                    }
                },
            }
        }
        i = i + 1;
    }
    assert(os.take(projects.len() as int) =~= os);
    assert(label@ == combined_label(*scope)->Ok_0);
    Ok(render_combined_review(label.as_str(), &sections, &unavailable))
}

// ---------------------------------------------------------------------------
// Laws of reviews
// ---------------------------------------------------------------------------

proof fn lemma_earliest_latest(ds: Seq<(Day, DocumentModel)>)
    requires
        ds.len() > 0,
    ensures
        exists|i: int| 0 <= i < ds.len() && ds[i].0 == earliest(ds),
        exists|j: int| 0 <= j < ds.len() && ds[j].0 == latest(ds),
        forall|k: int| 0 <= k < ds.len() ==> day_le(earliest(ds), #[trigger] ds[k].0),
        forall|k: int| 0 <= k < ds.len() ==> day_le(ds[k].0, latest(ds)),
    decreases ds.len(),
{
    if ds.len() > 1 {
        let d = ds.drop_last();
        lemma_earliest_latest(d);
        let i = choose|i: int| 0 <= i < d.len() && d[i].0 == earliest(d);
        let j = choose|j: int| 0 <= j < d.len() && d[j].0 == latest(d);
        assert(ds[i] == d[i]);
        assert(ds[j] == d[j]);
        assert(ds[ds.len() - 1] == ds.last());
        assert forall|k: int| 0 <= k < ds.len() implies day_le(earliest(ds), #[trigger] ds[k].0) && day_le(
            ds[k].0,
            latest(ds),
        ) by {
            if k < ds.len() - 1 {
                assert(ds[k] == d[k]);
            }
        }
    } else {
        assert(ds[0].0 == earliest(ds));
        assert(ds[0].0 == latest(ds));
    }
}

/// The overview of a workspace's history opens with the span of its records:
/// the earliest day any record has, then the latest, whatever the order the
/// records come in.
pub proof fn lemma_overview_spans_history(ds: Seq<(Day, DocumentModel)>)
    requires
        ds.len() > 0,
    ensures
        exists|i: int, j: int|
            0 <= i < ds.len() && 0 <= j < ds.len() && (forall|k: int|
                0 <= k < ds.len() ==> day_le(ds[i].0, #[trigger] ds[k].0) && day_le(ds[k].0, ds[j].0))
                && has_prefix(
                overview_of(ds),
                "Review history: "@ + day_text(ds[i].0) + " through "@ + day_text(ds[j].0) + "\n"@,
            ),
{
    lemma_earliest_latest(ds);
    let i = choose|i: int| 0 <= i < ds.len() && ds[i].0 == earliest(ds);
    let j = choose|j: int| 0 <= j < ds.len() && ds[j].0 == latest(ds);
    let p = "Review history: "@ + day_text(ds[i].0) + " through "@ + day_text(ds[j].0) + "\n"@;
    reveal_strlit("\n\n");
    reveal_strlit("\n");
    let o = overview_of(ds);
    assert(o.take(p.len() as int) =~= p);
    assert forall|k: int| 0 <= k < ds.len() implies day_le(ds[i].0, #[trigger] ds[k].0) && day_le(
        ds[k].0,
        ds[j].0,
    ) by {}
}

/// A record is reviewed for a period exactly when its day lies between the
/// period's first and last days (every record when there is no period),
/// and the reviewed records keep their order.
pub proof fn lemma_period_selects_its_days(ds: Seq<(Day, DocumentModel)>, range: Option<(Day, Day)>)
    ensures
        in_period_entries(ds, range) == ds.filter(
            |e: (Day, DocumentModel)|
                match range {
                    Some((start, end)) => day_le(start, e.0) && day_le(e.0, end),
                    None => true,
                },
        ),
    decreases ds.len(),
{
    reveal(Seq::filter);
    let f = |e: (Day, DocumentModel)|
        match range {
            Some((start, end)) => day_le(start, e.0) && day_le(e.0, end),
            None => true,
        };
    if ds.len() > 0 {
        lemma_period_selects_its_days(ds.drop_last(), range);
        let prev = in_period_entries(ds.drop_last(), range);
        if f(ds.last()) {
            assert(in_period_entries(ds, range) =~= prev.push(ds.last()));
        } else {
            assert(in_period_entries(ds, range) =~= prev);
        }
    } else {
        assert(in_period_entries(ds, range) =~= ds.filter(f));
    }
}

/// The overview counts, for a year and a kind, exactly the dated records of
/// that kind whose day falls in that year.
pub proof fn lemma_year_count_counts(ds: Seq<(Day, DocumentModel)>, year: int, kind: Seq<char>)
    ensures
        year_count(ds, year, kind) == ds.filter(
            |e: (Day, DocumentModel)| e.0.year == year && e.1.kind == kind,
        ).len(),
    decreases ds.len(),
{
    reveal(Seq::filter);
    if ds.len() > 0 {
        lemma_year_count_counts(ds.drop_last(), year, kind);
    }
}

} // verus!
