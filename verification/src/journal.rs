//! The daily journal: reading its bullet sections, merging new bullets into
//! them, and writing the day's Markdown.
use vstd::prelude::*;
use crate::text::{
    lines, trim, strs, views, chars_of, string_of, push_all, push_str, same, starts_with,
    lines_of, trim_chars, skip,
};
use crate::lines::{index_of_line, lemma_index_of_line, find_line};
use crate::util::{quoted, yaml_string};
use crate::model::bullet_lines;
use crate::frontmatter::scalar_value;

verus! {

/// The bullets of a section, read from the lines after its heading: `- `
/// lines give their trimmed text, a repeated heading line is passed over, and
/// the next `## ` heading ends the section.
pub open spec fn section_bullets(ls: Seq<Seq<char>>, heading: Seq<char>) -> Seq<Seq<char>>
    decreases ls.len(),
{
    if ls.len() == 0 {
        seq![]
    } else if ls[0] == heading {
        section_bullets(ls.drop_first(), heading)
    } else if crate::text::has_prefix(ls[0], "## "@) {
        seq![]
    } else if crate::text::has_prefix(ls[0], "- "@) {
        seq![trim(ls[0].skip(2))] + section_bullets(ls.drop_first(), heading)
    } else {
        section_bullets(ls.drop_first(), heading)
    }
}

/// The bullets under the first line equal to `heading` in `text`.
pub open spec fn bullets_in(text: Seq<char>, heading: Seq<char>) -> Seq<Seq<char>> {
    let ls = lines(text);
    let i = index_of_line(ls, heading);
    if i < ls.len() {
        section_bullets(ls.skip(i + 1), heading)
    } else {
        seq![]
    }
}

/// The bullets under `heading` in `text`.
pub fn markdown_bullets(text: &[char], heading: &str) -> (out: Vec<Vec<char>>)
    ensures
        views(out@) == bullets_in(text@, heading@),
{
    let ls = lines_of(text);
    let h = chars_of(heading);
    proof {
        assert(views(ls@).skip(0) =~= views(ls@));
        lemma_index_of_line(views(ls@), h@);
    }
    let i = find_line(&ls, 0, h.as_slice());
    let mut out: Vec<Vec<char>> = Vec::new();
    if i >= ls.len() {
        return out;
    }
    let sub_heading = chars_of("## ");
    let bullet = chars_of("- ");
    proof {
        reveal_strlit("## ");
        reveal_strlit("- ");
    }
    let ghost all = views(ls@);
    let mut j = i + 1;
    while j < ls.len()
        invariant
            i < j <= ls.len(),
            all == views(ls@),
            sub_heading@ == "## "@,
            bullet@ == "- "@,
            bullet@.len() == 2,
            bullets_in(text@, heading@) == views(out@) + section_bullets(all.skip(j as int), h@),
            h@ == heading@,
        decreases ls.len() - j,
    {
        assert(all.skip(j as int)[0] == ls@[j as int]@);
        assert(all.skip(j as int).drop_first() =~= all.skip(j + 1));
        if same(ls[j].as_slice(), h.as_slice()) {
        } else if starts_with(ls[j].as_slice(), sub_heading.as_slice()) {
            assert(section_bullets(all.skip(j as int), h@) == Seq::<Seq<char>>::empty());
            assert(views(out@) + Seq::<Seq<char>>::empty() =~= views(out@));
            return out;
        } else if starts_with(ls[j].as_slice(), bullet.as_slice()) {
            let rest = skip(ls[j].as_slice(), bullet.len());
            let t = trim_chars(rest.as_slice());
            let ghost before = views(out@);
            out.push(t);
            assert(views(out@) =~= before + seq![t@]);
        }
        j = j + 1;
    }
    assert(all.skip(j as int).len() == 0);
    assert(views(out@) + Seq::<Seq<char>>::empty() =~= views(out@));
    out
}

/// The non-empty trimmed values, in order.
pub open spec fn cleaned(values: Seq<Seq<char>>) -> Seq<Seq<char>>
    decreases values.len(),
{
    if values.len() == 0 {
        seq![]
    } else {
        let c = cleaned(values.drop_last());
        if trim(values.last()).len() > 0 {
            c.push(trim(values.last()))
        } else {
            c
        }
    }
}

/// `list` with each of `items` appended, in order, unless already present.
pub open spec fn appended(list: Seq<Seq<char>>, items: Seq<Seq<char>>) -> Seq<Seq<char>>
    decreases items.len(),
{
    if items.len() == 0 {
        list
    } else {
        let l = appended(list, items.drop_last());
        if l.contains(items.last()) {
            l
        } else {
            l.push(items.last())
        }
    }
}

/// `list` with each of `items` appended, in order, unless already present in
/// it or in `done`.
pub open spec fn appended_unless(
    list: Seq<Seq<char>>,
    items: Seq<Seq<char>>,
    done: Seq<Seq<char>>,
) -> Seq<Seq<char>>
    decreases items.len(),
{
    if items.len() == 0 {
        list
    } else {
        let l = appended_unless(list, items.drop_last(), done);
        if l.contains(items.last()) || done.contains(items.last()) {
            l
        } else {
            l.push(items.last())
        }
    }
}

/// `list` without the values that occur in `items`.
pub open spec fn without(list: Seq<Seq<char>>, items: Seq<Seq<char>>) -> Seq<Seq<char>>
    decreases list.len(),
{
    if list.len() == 0 {
        seq![]
    } else {
        let w = without(list.drop_last(), items);
        if items.contains(list.last()) {
            w
        } else {
            w.push(list.last())
        }
    }
}

/// The bullets given for one day's journal update.
pub struct JournalSections<'a> {
    pub done: &'a [String],
    pub planned: &'a [String],
    pub questions: &'a [String],
    pub next: &'a [String],
}

/// A journal's bullet lists.
pub struct JournalLists {
    pub done: Vec<Vec<char>>,
    pub planned: Vec<Vec<char>>,
    pub questions: Vec<Vec<char>>,
    pub next: Vec<Vec<char>>,
}

/// The opening of a day's journal: managed frontmatter and the date as H1.
pub open spec fn journal_head(date: Seq<char>, created_at: Seq<char>) -> Seq<char> {
    "---\nid: "@ + quoted("journal-"@ + date) + "\ntype: \"journal\"\ncreated_at: "@ + quoted(
        created_at,
    ) + "\n---\n\n# "@ + date + "\n"@
}

/// One journal section: its heading, then its bullets or a `none` marker.
pub open spec fn journal_section(heading: Seq<char>, values: Seq<Seq<char>>) -> Seq<char> {
    "\n## "@ + heading + "\n\n"@ + if values.len() == 0 {
        "<!-- none -->\n"@
    } else {
        bullet_lines(values)
    }
}

/// A day's journal: Done, the legacy Decisions and Learnings sections only
/// when they hold bullets, then Planned, Open questions and Next.
pub open spec fn rendered_journal(
    date: Seq<char>,
    created_at: Seq<char>,
    done: Seq<Seq<char>>,
    legacy_decisions: Seq<Seq<char>>,
    legacy_learnings: Seq<Seq<char>>,
    planned: Seq<Seq<char>>,
    questions: Seq<Seq<char>>,
    next: Seq<Seq<char>>,
) -> Seq<char> {
    journal_head(date, created_at) + journal_section("Done"@, done) + (if legacy_decisions.len()
        == 0 {
        Seq::<char>::empty()
    } else {
        journal_section("Decisions"@, legacy_decisions)
    }) + (if legacy_learnings.len() == 0 {
        Seq::<char>::empty()
    } else {
        journal_section("Learnings"@, legacy_learnings)
    }) + journal_section("Planned"@, planned) + journal_section("Open questions"@, questions)
        + journal_section("Next"@, next)
}

fn push_bullets(output: &mut Vec<char>, values: &Vec<Vec<char>>)
    ensures
        final(output)@ == old(output)@ + bullet_lines(views(values@)),
{
    let mut i: usize = 0;
    while i < values.len()
        invariant
            i <= values.len(),
            output@ == old(output)@ + bullet_lines(views(values@).take(i as int)),
        decreases values.len() - i,
    {
        push_str(output, "- ");
        push_all(output, values[i].as_slice());
        push_str(output, "\n");
        assert(views(values@).take(i + 1).drop_last() =~= views(values@).take(i as int));
        i = i + 1;
    }
    assert(views(values@).take(values.len() as int) =~= views(values@));
}

fn push_section(output: &mut Vec<char>, heading: &str, values: &Vec<Vec<char>>)
    ensures
        final(output)@ == old(output)@ + journal_section(heading@, views(values@)),
{
    push_str(output, "\n## ");
    push_str(output, heading);
    push_str(output, "\n\n");
    if values.len() == 0 {
        push_str(output, "<!-- none -->\n");
    } else {
        push_bullets(output, values);
    }
}

/// The Markdown of a day's journal.
pub fn render_journal(
    date: &[char],
    created_at: &[char],
    lists: &JournalLists,
    legacy_decisions: &Vec<Vec<char>>,
    legacy_learnings: &Vec<Vec<char>>,
) -> (out: Vec<char>)
    ensures
        out@ == rendered_journal(
            date@,
            created_at@,
            views(lists.done@),
            views(legacy_decisions@),
            views(legacy_learnings@),
            views(lists.planned@),
            views(lists.questions@),
            views(lists.next@),
        ),
{
    let mut id = chars_of("journal-");
    push_all(&mut id, date);
    let id_s = string_of(id.as_slice());
    let created_s = string_of(created_at);
    let mut output = chars_of("---\nid: ");
    push_str(&mut output, yaml_string(id_s.as_str()).as_str());
    push_str(&mut output, "\ntype: \"journal\"\ncreated_at: ");
    push_str(&mut output, yaml_string(created_s.as_str()).as_str());
    push_str(&mut output, "\n---\n\n# ");
    push_all(&mut output, date);
    push_str(&mut output, "\n");
    push_section(&mut output, "Done", &lists.done);
    if legacy_decisions.len() > 0 {
        push_section(&mut output, "Decisions", legacy_decisions);
    }
    if legacy_learnings.len() > 0 {
        push_section(&mut output, "Learnings", legacy_learnings);
    }
    push_section(&mut output, "Planned", &lists.planned);
    push_section(&mut output, "Open questions", &lists.questions);
    push_section(&mut output, "Next", &lists.next);
    output
}

fn contains_line(list: &Vec<Vec<char>>, item: &[char]) -> (r: bool)
    ensures
        r == views(list@).contains(item@),
{
    let mut i: usize = 0;
    while i < list.len()
        invariant
            i <= list.len(),
            forall|k: int| 0 <= k < i ==> views(list@)[k] != item@,
        decreases list.len() - i,
    {
        if same(list[i].as_slice(), item) {
            assert(views(list@)[i as int] == item@);
            return true;
        }
        i = i + 1;
    }
    false
}

/// The non-empty trimmed values of `values`.
pub fn clean_bullets(values: &[String]) -> (out: Vec<Vec<char>>)
    ensures
        views(out@) == cleaned(strs(values@)),
{
    let mut out: Vec<Vec<char>> = Vec::new();
    let mut i: usize = 0;
    while i < values.len()
        invariant
            i <= values.len(),
            views(out@) == cleaned(strs(values@).take(i as int)),
        decreases values.len() - i,
    {
        let v = chars_of(values[i].as_str());
        let t = trim_chars(v.as_slice());
        let ghost before = views(out@);
        assert(strs(values@).take(i + 1).drop_last() =~= strs(values@).take(i as int));
        assert(strs(values@).take(i + 1).last() == values@[i as int]@);
        if t.len() > 0 {
            out.push(t);
            assert(views(out@) =~= before.push(t@));
        }
        i = i + 1;
    }
    assert(strs(values@).take(values.len() as int) =~= strs(values@));
    out
}

fn append_new(list: &mut Vec<Vec<char>>, items: &Vec<Vec<char>>) -> (added: usize)
    requires
        old(list)@.len() + items@.len() <= usize::MAX,
    ensures
        views(final(list)@) == appended(views(old(list)@), views(items@)),
        added == final(list)@.len() - old(list)@.len(),
        added <= items@.len(),
{
    let ghost start = views(list@);
    let start_len = list.len();
    let mut i: usize = 0;
    while i < items.len()
        invariant
            i <= items.len(),
            start == views(old(list)@),
            start_len == old(list)@.len(),
            start_len + items@.len() <= usize::MAX,
            views(list@) == appended(start, views(items@).take(i as int)),
            start_len <= list@.len() <= start_len + i,
        decreases items.len() - i,
    {
        let ghost before = views(list@);
        assert(views(items@).take(i + 1).drop_last() =~= views(items@).take(i as int));
        assert(views(items@).take(i + 1).last() == items@[i as int]@);
        if !contains_line(list, items[i].as_slice()) {
            let v = crate::text::to_vec(items[i].as_slice());
            list.push(v);
            assert(views(list@) =~= before.push(v@));
        }
        i = i + 1;
    }
    assert(views(items@).take(items.len() as int) =~= views(items@));
    list.len() - start_len
}

fn append_new_unless(list: &mut Vec<Vec<char>>, items: &Vec<Vec<char>>, done: &Vec<Vec<char>>) -> (added: usize)
    requires
        old(list)@.len() + items@.len() <= usize::MAX,
    ensures
        views(final(list)@) == appended_unless(views(old(list)@), views(items@), views(done@)),
        added == final(list)@.len() - old(list)@.len(),
        added <= items@.len(),
{
    let ghost start = views(list@);
    let start_len = list.len();
    let mut i: usize = 0;
    while i < items.len()
        invariant
            i <= items.len(),
            start == views(old(list)@),
            start_len == old(list)@.len(),
            start_len + items@.len() <= usize::MAX,
            views(list@) == appended_unless(start, views(items@).take(i as int), views(done@)),
            start_len <= list@.len() <= start_len + i,
        decreases items.len() - i,
    {
        let ghost before = views(list@);
        assert(views(items@).take(i + 1).drop_last() =~= views(items@).take(i as int));
        assert(views(items@).take(i + 1).last() == items@[i as int]@);
        if !contains_line(list, items[i].as_slice()) && !contains_line(done, items[i].as_slice()) {
            let v = crate::text::to_vec(items[i].as_slice());
            list.push(v);
            assert(views(list@) =~= before.push(v@));
        }
        i = i + 1;
    }
    assert(views(items@).take(items.len() as int) =~= views(items@));
    list.len() - start_len
}

fn remove_all(list: &Vec<Vec<char>>, items: &Vec<Vec<char>>) -> (out: Vec<Vec<char>>)
    ensures
        views(out@) == without(views(list@), views(items@)),
        out@.len() <= list@.len(),
{
    let mut out: Vec<Vec<char>> = Vec::new();
    let mut i: usize = 0;
    while i < list.len()
        invariant
            i <= list.len(),
            views(out@) == without(views(list@).take(i as int), views(items@)),
            out@.len() <= i,
        decreases list.len() - i,
    {
        let ghost before = views(out@);
        assert(views(list@).take(i + 1).drop_last() =~= views(list@).take(i as int));
        assert(views(list@).take(i + 1).last() == list@[i as int]@);
        if !contains_line(items, list[i].as_slice()) {
            let v = crate::text::to_vec(list[i].as_slice());
            out.push(v);
            assert(views(out@) =~= before.push(v@));
        }
        i = i + 1;
    }
    assert(views(list@).take(list.len() as int) =~= views(list@));
    out
}

/// The day's bullet lists after an update: new Done, Planned and Open
/// question bullets are appended unless present, every Next bullet that is
/// now done is dropped, and new Next bullets are appended unless present or
/// already done.
pub open spec fn merged_lists(
    done: Seq<Seq<char>>,
    planned: Seq<Seq<char>>,
    questions: Seq<Seq<char>>,
    next: Seq<Seq<char>>,
    new_done: Seq<Seq<char>>,
    new_planned: Seq<Seq<char>>,
    new_questions: Seq<Seq<char>>,
    new_next: Seq<Seq<char>>,
) -> (Seq<Seq<char>>, Seq<Seq<char>>, Seq<Seq<char>>, Seq<Seq<char>>) {
    let d = appended(done, cleaned(new_done));
    (
        d,
        appended(planned, cleaned(new_planned)),
        appended(questions, cleaned(new_questions)),
        appended_unless(without(next, cleaned(new_done)), cleaned(new_next), d),
    )
}

/// Where a day's journal was written and how many bullets were new.
pub struct JournalUpdate {
    pub path: String,
    pub added: usize,
}

/// The result of updating a day's journal text.
pub struct JournalText {
    pub content: String,
    pub added: usize,
}

/// The day's bullet lists after merging new bullets into those of `existing`.
pub open spec fn merged_from(
    existing: Seq<char>,
    new_done: Seq<Seq<char>>,
    new_planned: Seq<Seq<char>>,
    new_questions: Seq<Seq<char>>,
    new_next: Seq<Seq<char>>,
) -> (Seq<Seq<char>>, Seq<Seq<char>>, Seq<Seq<char>>, Seq<Seq<char>>) {
    merged_lists(
        bullets_in(existing, "## Done"@),
        bullets_in(existing, "## Planned"@),
        bullets_in(existing, "## Open questions"@),
        bullets_in(existing, "## Next"@),
        new_done,
        new_planned,
        new_questions,
        new_next,
    )
}

/// The day's journal text after merging new bullets into `existing`: the
/// original `created_at` is kept when there is one, and the legacy sections
/// are carried over.
pub open spec fn merged_content(
    existing: Seq<char>,
    date: Seq<char>,
    created_at: Seq<char>,
    new_done: Seq<Seq<char>>,
    new_planned: Seq<Seq<char>>,
    new_questions: Seq<Seq<char>>,
    new_next: Seq<Seq<char>>,
) -> Seq<char> {
    let m = merged_from(existing, new_done, new_planned, new_questions, new_next);
    rendered_journal(
        date,
        match scalar_value(existing, "created_at"@) {
            Some(c) => c,
            None => created_at,
        },
        m.0,
        bullets_in(existing, "## Decisions"@),
        bullets_in(existing, "## Learnings"@),
        m.1,
        m.2,
        m.3,
    )
}

/// How many bullets a merge adds: the growth of Done, Planned and Open
/// questions, and the Next bullets added beyond those kept.
pub open spec fn merged_added(
    existing: Seq<char>,
    new_done: Seq<Seq<char>>,
    new_planned: Seq<Seq<char>>,
    new_questions: Seq<Seq<char>>,
    new_next: Seq<Seq<char>>,
) -> int {
    let m = merged_from(existing, new_done, new_planned, new_questions, new_next);
    (m.0.len() - bullets_in(existing, "## Done"@).len()) + (m.1.len() - bullets_in(
        existing,
        "## Planned"@,
    ).len()) + (m.2.len() - bullets_in(existing, "## Open questions"@).len()) + (m.3.len()
        - without(bullets_in(existing, "## Next"@), cleaned(new_done)).len())
}

/// The journal's bullets under `heading` in `existing`.
pub open spec fn existing_bullets(existing: Seq<char>, heading: Seq<char>) -> Seq<Seq<char>> {
    bullets_in(existing, heading)
}

/// The day's journal after adding `sections` to `existing` (empty when the
/// day has no journal yet): the original `created_at` is kept when there is
/// one, legacy Decisions and Learnings sections are carried over, and `added`
/// counts the bullets that were new.
pub fn merge_journal(
    existing: &str,
    date: &str,
    created_at: &str,
    sections: JournalSections<'_>,
) -> (r: JournalText)
    requires
        sections.done@.len() + sections.planned@.len() + sections.questions@.len()
            + sections.next@.len() <= usize::MAX / 2,
        bullets_in(existing@, "## Done"@).len() + bullets_in(existing@, "## Planned"@).len()
            + bullets_in(existing@, "## Open questions"@).len() + bullets_in(
            existing@,
            "## Next"@,
        ).len() <= usize::MAX / 2,
    ensures
        r.content@ == merged_content(
            existing@,
            date@,
            created_at@,
            strs(sections.done@),
            strs(sections.planned@),
            strs(sections.questions@),
            strs(sections.next@),
        ),
        r.added == merged_added(
            existing@,
            strs(sections.done@),
            strs(sections.planned@),
            strs(sections.questions@),
            strs(sections.next@),
        ),
{
    let text = chars_of(existing);
    let original = crate::frontmatter::scalar(text.as_slice(), "created_at");
    let created: Vec<char> = match original {
        Some(c) => c,
        None => chars_of(created_at),
    };
    let mut done = markdown_bullets(text.as_slice(), "## Done");
    let legacy_decisions = markdown_bullets(text.as_slice(), "## Decisions");
    let legacy_learnings = markdown_bullets(text.as_slice(), "## Learnings");
    let mut planned = markdown_bullets(text.as_slice(), "## Planned");
    let mut questions = markdown_bullets(text.as_slice(), "## Open questions");
    let next_items = markdown_bullets(text.as_slice(), "## Next");

    let new_done = clean_bullets(sections.done);
    let new_planned = clean_bullets(sections.planned);
    let new_questions = clean_bullets(sections.questions);
    let new_next = clean_bullets(sections.next);
    proof {
        lemma_cleaned_len(strs(sections.done@));
        lemma_cleaned_len(strs(sections.planned@));
        lemma_cleaned_len(strs(sections.questions@));
        lemma_cleaned_len(strs(sections.next@));
    }

    let added_done = append_new(&mut done, &new_done);
    let mut next = remove_all(&next_items, &new_done);
    let added_planned = append_new(&mut planned, &new_planned);
    let added_questions = append_new(&mut questions, &new_questions);
    let added_next = append_new_unless(&mut next, &new_next, &done);
    let added = added_done + added_planned + added_questions + added_next;

    let lists = JournalLists { done, planned, questions, next };
    let d = chars_of(date);
    let content = render_journal(
        d.as_slice(),
        created.as_slice(),
        &lists,
        &legacy_decisions,
        &legacy_learnings,
    );
    JournalText { content: string_of(content.as_slice()), added }
}

/// Cleaning never adds values.
pub proof fn lemma_cleaned_len(values: Seq<Seq<char>>)
    ensures
        cleaned(values).len() <= values.len(),
    decreases values.len(),
{
    if values.len() > 0 {
        lemma_cleaned_len(values.drop_last());
    }
}

// ---------------------------------------------------------------------------
// Repeating an update
// ---------------------------------------------------------------------------

pub(crate) proof fn lemma_appended_members(list: Seq<Seq<char>>, items: Seq<Seq<char>>)
    ensures
        forall|x: Seq<char>| #[trigger] appended(list, items).contains(x) <==> (list.contains(x) || items.contains(x)),
    decreases items.len(),
{
    if items.len() > 0 {
        lemma_appended_members(list, items.drop_last());
        let l = appended(list, items.drop_last());
        assert forall|x: Seq<char>| #[trigger] appended(list, items).contains(x) <==> (list.contains(x) || items.contains(x)) by {
            if items.contains(x) && !items.drop_last().contains(x) {
                let k = choose|k: int| 0 <= k < items.len() && items[k] == x;
                if k < items.len() - 1 {
                    assert(items.drop_last()[k] == x);
                }
                assert(x == items.last());
                if !l.contains(x) {
                    assert(l.push(x)[l.len() as int] == x);
                }
            }
            if items.drop_last().contains(x) {
                let k = choose|k: int| 0 <= k < items.drop_last().len() && items.drop_last()[k] == x;
                assert(items[k] == x);
            }
            if !l.contains(items.last()) {
                assert(l.push(items.last()).contains(x) <==> (l.contains(x) || x == items.last())) by {
                    if l.push(items.last()).contains(x) {
                        let k = choose|k: int| 0 <= k < l.push(items.last()).len() && l.push(items.last())[k] == x;
                        if k < l.len() {
                            assert(l[k] == x);
                        }
                    }
                    if l.contains(x) {
                        let k = choose|k: int| 0 <= k < l.len() && l[k] == x;
                        assert(l.push(items.last())[k] == x);
                    }
                    if x == items.last() {
                        assert(l.push(items.last())[l.len() as int] == x);
                    }
                }
                if x == items.last() {
                    assert(items[items.len() - 1] == x);
                }
            }
        }
    }
}

proof fn lemma_appended_unchanged(list: Seq<Seq<char>>, items: Seq<Seq<char>>)
    requires
        forall|i: int| 0 <= i < items.len() ==> list.contains(#[trigger] items[i]),
    ensures
        appended(list, items) == list,
    decreases items.len(),
{
    if items.len() > 0 {
        assert forall|i: int| 0 <= i < items.drop_last().len() implies list.contains(#[trigger] items.drop_last()[i]) by {
            assert(items.drop_last()[i] == items[i]);
        }
        lemma_appended_unchanged(list, items.drop_last());
        assert(list.contains(items[items.len() - 1]));
    }
}

pub(crate) proof fn lemma_without_members(list: Seq<Seq<char>>, items: Seq<Seq<char>>)
    ensures
        forall|x: Seq<char>| #[trigger] without(list, items).contains(x) ==> !items.contains(x)
            && list.contains(x),
    decreases list.len(),
{
    if list.len() > 0 {
        lemma_without_members(list.drop_last(), items);
        let w = without(list.drop_last(), items);
        assert forall|x: Seq<char>| #[trigger] without(list, items).contains(x) implies !items.contains(x)
            && list.contains(x) by {
            if !items.contains(list.last()) {
                let k = choose|k: int| 0 <= k < w.push(list.last()).len() && w.push(list.last())[k] == x;
                if k < w.len() {
                    assert(w[k] == x);
                    assert(w.contains(x));
                } else {
                    assert(x == list.last());
                    assert(list[list.len() - 1] == x);
                }
            } else {
                assert(w.contains(x));
            }
            if w.contains(x) {
                assert(list.drop_last().contains(x));
                let j = choose|j: int| 0 <= j < list.drop_last().len() && list.drop_last()[j] == x;
                assert(list[j] == x);
            }
        }
    }
}

proof fn lemma_without_unchanged(list: Seq<Seq<char>>, items: Seq<Seq<char>>)
    requires
        forall|i: int| 0 <= i < list.len() ==> !items.contains(#[trigger] list[i]),
    ensures
        without(list, items) == list,
    decreases list.len(),
{
    if list.len() > 0 {
        assert forall|i: int| 0 <= i < list.drop_last().len() implies !items.contains(#[trigger] list.drop_last()[i]) by {
            assert(list.drop_last()[i] == list[i]);
        }
        lemma_without_unchanged(list.drop_last(), items);
        assert(!items.contains(list[list.len() - 1]));
        assert(list.drop_last().push(list.last()) =~= list);
    }
}

pub(crate) proof fn lemma_appended_unless_members(list: Seq<Seq<char>>, items: Seq<Seq<char>>, done: Seq<Seq<char>>)
    ensures
        forall|x: Seq<char>| #[trigger] appended_unless(list, items, done).contains(x) ==> (list.contains(x) || (
            items.contains(x) && !done.contains(x))),
        forall|x: Seq<char>| items.contains(x) ==> (#[trigger] appended_unless(list, items, done).contains(x) || done.contains(x)),
        forall|x: Seq<char>| list.contains(x) ==> #[trigger] appended_unless(list, items, done).contains(x),
    decreases items.len(),
{
    if items.len() > 0 {
        lemma_appended_unless_members(list, items.drop_last(), done);
        let l = appended_unless(list, items.drop_last(), done);
        let y = items.last();
        let r = appended_unless(list, items, done);
        assert forall|x: Seq<char>| #[trigger] r.contains(x) implies (list.contains(x) || (items.contains(x) && !done.contains(x))) by {
            if l.contains(x) {
                if items.drop_last().contains(x) {
                    let k = choose|k: int| 0 <= k < items.drop_last().len() && items.drop_last()[k] == x;
                    assert(items[k] == x);
                }
            } else {
                let k = choose|k: int| 0 <= k < r.len() && r[k] == x;
                if k < l.len() {
                    assert(l[k] == x);
                }
                assert(items[items.len() - 1] == x);
            }
        }
        assert forall|x: Seq<char>| items.contains(x) implies (#[trigger] r.contains(x) || done.contains(x)) by {
            let k = choose|k: int| 0 <= k < items.len() && items[k] == x;
            if k < items.len() - 1 {
                assert(items.drop_last()[k] == x);
                if l.contains(x) && !(l.contains(y) || done.contains(y)) {
                    let j = choose|j: int| 0 <= j < l.len() && l[j] == x;
                    assert(r[j] == x);
                }
            } else {
                if !(l.contains(y) || done.contains(y)) {
                    assert(r[l.len() as int] == y);
                }
            }
        }
        assert forall|x: Seq<char>| list.contains(x) implies #[trigger] r.contains(x) by {
            assert(l.contains(x));
            if !(l.contains(y) || done.contains(y)) {
                let j = choose|j: int| 0 <= j < l.len() && l[j] == x;
                assert(r[j] == x);
            }
        }
    }
}

proof fn lemma_appended_unless_unchanged(list: Seq<Seq<char>>, items: Seq<Seq<char>>, done: Seq<Seq<char>>)
    requires
        forall|i: int| 0 <= i < items.len() ==> list.contains(#[trigger] items[i]) || done.contains(items[i]),
    ensures
        appended_unless(list, items, done) == list,
    decreases items.len(),
{
    if items.len() > 0 {
        assert forall|i: int| 0 <= i < items.drop_last().len() implies list.contains(#[trigger] items.drop_last()[i])
            || done.contains(items.drop_last()[i]) by {
            assert(items.drop_last()[i] == items[i]);
        }
        lemma_appended_unless_unchanged(list, items.drop_last(), done);
        assert(list.contains(items[items.len() - 1]) || done.contains(items[items.len() - 1]));
    }
}

/// Repeating a journal update changes nothing: merging the same bullets into
/// the lists that the first merge produced gives those lists again.
pub proof fn lemma_merge_idempotent(
    done: Seq<Seq<char>>,
    planned: Seq<Seq<char>>,
    questions: Seq<Seq<char>>,
    next: Seq<Seq<char>>,
    new_done: Seq<Seq<char>>,
    new_planned: Seq<Seq<char>>,
    new_questions: Seq<Seq<char>>,
    new_next: Seq<Seq<char>>,
)
    ensures
        ({
            let m = merged_lists(done, planned, questions, next, new_done, new_planned, new_questions, new_next);
            &&& merged_lists(m.0, m.1, m.2, m.3, new_done, new_planned, new_questions, new_next) == m
            &&& without(m.3, cleaned(new_done)) == m.3
        }),
{
    let m = merged_lists(done, planned, questions, next, new_done, new_planned, new_questions, new_next);
    let cd = cleaned(new_done);
    let cp = cleaned(new_planned);
    let cq = cleaned(new_questions);
    let cn = cleaned(new_next);
    lemma_appended_members(done, cd);
    lemma_appended_members(planned, cp);
    lemma_appended_members(questions, cq);
    assert forall|i: int| 0 <= i < cd.len() implies m.0.contains(#[trigger] cd[i]) by {
        assert(cd.contains(cd[i]));
    }
    lemma_appended_unchanged(m.0, cd);
    assert forall|i: int| 0 <= i < cp.len() implies m.1.contains(#[trigger] cp[i]) by {
        assert(cp.contains(cp[i]));
    }
    lemma_appended_unchanged(m.1, cp);
    assert forall|i: int| 0 <= i < cq.len() implies m.2.contains(#[trigger] cq[i]) by {
        assert(cq.contains(cq[i]));
    }
    lemma_appended_unchanged(m.2, cq);
    let w = without(next, cd);
    lemma_without_members(next, cd);
    lemma_appended_unless_members(w, cn, m.0);
    assert forall|i: int| 0 <= i < m.3.len() implies !cd.contains(#[trigger] m.3[i]) by {
        let x = m.3[i];
        assert(m.3.contains(x));
        if cd.contains(x) {
            assert(m.0.contains(x));
        }
    }
    lemma_without_unchanged(m.3, cd);
    assert forall|i: int| 0 <= i < cn.len() implies m.3.contains(#[trigger] cn[i]) || m.0.contains(cn[i]) by {
        assert(cn.contains(cn[i]));
    }
    lemma_appended_unless_unchanged(m.3, cn, m.0);
}

/// What a journal update does to the bullet lists: every new Done, Planned
/// and Open question bullet is there afterwards and nothing else is added to
/// those lists; a bullet just done is no longer under Next; every new Next
/// bullet is under Next unless it is done; and Next holds only bullets that
/// were there or were given.
pub proof fn lemma_merge_moves_done_items(
    done: Seq<Seq<char>>,
    planned: Seq<Seq<char>>,
    questions: Seq<Seq<char>>,
    next: Seq<Seq<char>>,
    new_done: Seq<Seq<char>>,
    new_planned: Seq<Seq<char>>,
    new_questions: Seq<Seq<char>>,
    new_next: Seq<Seq<char>>,
)
    ensures
        ({
            let m = merged_lists(done, planned, questions, next, new_done, new_planned, new_questions, new_next);
            &&& forall|x: Seq<char>| #[trigger] m.0.contains(x) <==> done.contains(x) || cleaned(new_done).contains(x)
            &&& forall|x: Seq<char>| #[trigger] m.1.contains(x) <==> planned.contains(x) || cleaned(new_planned).contains(x)
            &&& forall|x: Seq<char>| #[trigger] m.2.contains(x) <==> questions.contains(x) || cleaned(new_questions).contains(x)
            &&& forall|x: Seq<char>| #[trigger] m.3.contains(x) ==> !cleaned(new_done).contains(x)
            &&& forall|x: Seq<char>| #[trigger] m.3.contains(x) ==> next.contains(x) || cleaned(new_next).contains(x)
            &&& forall|x: Seq<char>| cleaned(new_next).contains(x) ==> #[trigger] m.3.contains(x) || m.0.contains(x)
        }),
{
    let m = merged_lists(done, planned, questions, next, new_done, new_planned, new_questions, new_next);
    let cd = cleaned(new_done);
    lemma_appended_members(done, cd);
    lemma_appended_members(planned, cleaned(new_planned));
    lemma_appended_members(questions, cleaned(new_questions));
    let w = without(next, cd);
    lemma_without_members(next, cd);
    lemma_appended_unless_members(w, cleaned(new_next), m.0);
    assert forall|x: Seq<char>| #[trigger] m.3.contains(x) implies !cd.contains(x) by {
        if cd.contains(x) {
            assert(m.0.contains(x));
        }
    }
}

} // verus!
