//! The bundled Agent Skill and where it is installed: which harness
//! directories are offered, how the picker shows them, whether an existing
//! installation is current, and how installation health is reported.
use vstd::prelude::*;
use crate::text::{chars_of, string_of, push_all, push_str, same, strs, views, text_is};
use crate::store::joined_path;
use crate::util::{forward_slashes, displayed_path};

verus! {

/// The picker's key help.
pub const PICKER_HELP: &'static str =
    "[\u{2191}\u{2193} move, Space select/unselect, A toggle all/none, Enter continue, Esc cancel]";

/// The bundled skill's `SKILL.md`.
pub const SKILL: &'static str = r#"---
name: tincan
description: Proactively maintain focused development continuity in workspaces containing `.tincan/config.toml`, including during ordinary implementation, debugging, and design discussion—not only explicit resume or wrap-up requests. Preserve intended outcomes, meaningful handoffs, accepted decisions, evidence-supported learnings, and user-approved ideas for later without recording routine work.
---

# Tincan

Treat Markdown under `.tincan/` as canonical private project memory. A Tincan
workspace may contain zero, one, or several Git repositories.

Maintain Tincan as meaningful context emerges; do not wait for an explicit
wrap-up. Record only context whose loss could send later work in the wrong
direction, repeat a disproven approach, violate an accepted constraint, or lose
an idea the user wanted preserved.

Keep the kinds of memory distinct:

- The plan is the small set of outcomes the user currently intends to pursue.
- The later shelf contains possibilities worth remembering, not commitments or
  implied direction.
- The journal is the latest handoff: meaningful progress, open questions, and
  the next useful starting point.
- Decisions are accepted choices that constrain future work.
- Learnings are evidence-supported conclusions that should change future work.

## Start work

1. Find `.tincan/config.toml` in the current directory or an ancestor. If none
   exists, offer to run `tincan init <directory>` through the harness's standard
   user-question tool with `Initialize Tincan` and `Not now` choices.
   Never run `tincan init` without the user's explicit confirmation.
2. Run `tincan resume` once to read the living plan, later shelf, and latest
   journal. Do not
   repeat startup commands during the same task when that context is still
   available. If `tincan` is unavailable, suggest `cargo install tincan-cli`
   and continue without Tincan.
3. Run `tincan changes` when existing file-linked memory may matter.
4. After understanding the current task, search focused terms with
   `tincan search`. Search covers project records and global learnings. Load
   only relevant full records with `show`, and do not repeat searches already
   performed for the same task.

## Review history

When the user asks for a project retrospective or a review of work over time,
run bare `tincan review` first to inspect the recorded date span and yearly
counts. Then request only the useful calendar context with `review --year
YEAR`, `review --month YYYY-MM`, `review --quarter YYYY-QN`, or `review --half
YYYY-HN`; use `review --all-time`
only when the overview shows that loading every record is reasonable or the
user explicitly requests all history. Add `--all-projects` only when the user
requests a cross-project review.

If a cross-project review reports unavailable workspaces, do not remove them
automatically because a path may have moved or be temporarily disconnected.
Use `tincan projects` to show registry state. When the user asks to clean it up,
use `tincan projects unregister PATH_OR_ID`. Unregistering changes only personal
discovery state and never deletes project `.tincan/` memory; rerunning `tincan
init PATH` explicitly registers that workspace again. If Tincan reports the
same workspace ID at two live paths, ask the user which location is the original
instead of treating the copy as a move. With approval, run `tincan init PATH` on
the copy to assign it a new ID and register it separately.

Tincan returns deterministic source context, not an interpretation. Summarize
that context for the user's stated purpose, distinguish recorded evidence from
inference, and do not store a derived review unless the user asks for a file.

## Keep the skill current

Run `tincan skill status` when the user asks whether installed Tincan skills are
current or when troubleshooting differing behavior between agents. The check is
read-only. If it reports an available update, ask the user to run
`tincan skill install`; do not modify user-wide skill installations without
their confirmation.

## Maintain the plan

Edit `.tincan/plan.md` directly. Keep only current outcome-level work.
Do not turn it into an implementation checklist or duplicate an issue tracker.
Remove completed items. Preserve only any resulting handoff context that would
otherwise be lost.

After meaningful project work, review the plan before handing control back.
Change it only when the work completes, invalidates, refines, or reveals an
outcome. The plan guides current project direction; routine activity
does not require a plan edit.

## Maintain the later shelf

Use `tincan remember <text>` for a small observation, possible idea, or minor
issue that may be worth revisiting but is not an intended outcome, accepted
decision, or evidence-supported learning. Use it without another confirmation
when the user explicitly says to remember, save, revisit, or consider something
later. If preserving the thought is the agent's inference, ask a lightweight
question such as “Worth putting on the later shelf?” first. Do not record raw
brainstorming or every passing possibility.

`tincan resume` includes the shelf so possible ideas can be compared with the
current request. Do not implement, plan, or present an item as current direction
merely because it appears there. If an item seems relevant, mention the
connection and ask before folding it into the current work unless the user has
already directed that change. Use `tincan later` to view the shelf again without
reloading the rest of the handoff.

Keep `.tincan/later.md` short by removing discarded items and removing items
promoted into the plan, a decision, or a learning. Tentative items need no audit
trail, priority, status, assignment, or due date.

## Maintain the handoff

Before handing control back after meaningful project work, briefly review
whether the next person or agent still has enough context to resume safely.
Preserve context that would otherwise remain in someone's head: where work
stopped, what is unresolved, why the current state matters, and the most useful
next starting point.

If the handoff materially changed, update today's journal with only the
applicable `--done`, `--planned`, `--question`, and `--next` bullets. If the
existing journal and plan already provide enough context, write nothing. Do not
wait for the user to request a wrap-up, and do not let memory maintenance delay
the requested result.

The journal is a sufficient handoff, not a complete history. Do not mirror
commits, changelogs, issue trackers, file lists, routine commands, or the final
response. A push, merge, release, or other milestone can prompt a handoff
review, but does not itself require a journal entry.

## Classify memory

- Record an accepted choice with `tincan decide` when the user clearly commits
  to it. If acceptance is ambiguous or the classification requires judgment,
  ask before recording it.
- Journal bullets preserve only the meaningful progress, unfinished context,
  open questions, and concrete next starting point needed for a useful handoff.
  Include transient status only when it materially explains a blocker, an open
  question, why the current state matters, or where work should resume.
- Use `--supersedes <uuid>` when a decision replaces an active decision.
- `tincan learn <statement>` records an evidence-supported conclusion that
  remains useful beyond the current session. It must change a future
  implementation, debugging, review, or architectural action: what concrete
  mistake, regression, or repeated investigation will it prevent?

Add one or two `--topic` values when a learning has an obvious useful domain,
such as `react`, `rust`, or `accessibility`; do not invent or enforce a taxonomy.
Lifted global learnings inherit the project learning's topics.

Use workspace-relative `--file` paths. Let Tincan create UUIDs and frontmatter,
then add useful detail below the generated H1. Do not record using Tincan,
maintaining project memory, routine command execution, routine verification with
no durable implication, or transient dependency and audit status. Do not
promote a journal status update into a learning unless it establishes a durable,
reusable conclusion. Do not record routine edits, speculation, raw transcripts,
credentials, or customer data.

## Lift global learnings

When an evidence-supported project learning is likely to change work elsewhere,
prepare a concise global Markdown draft that is understandable without the rest
of the project. Show the exact generalized draft when asking for approval:

> I think this learning could be useful in other projects. Make it a global learning?

Use the harness's structured user-question tool when available, with choices to
make it global, review it first, or keep it in the project. A direct user request
such as "Make this a global learning" already grants approval and must not cause
a second prompt. If the approved conclusion is not recorded yet, create the
project learning first. After approval, save the shown Markdown to a temporary
file and run `tincan lift <learning-id> --from <markdown-file>`. The command
writes the global record only after the generalized body is ready. Remove the
agent-created temporary draft after a successful lift.

Before lifting, exclude credentials, customer data, and incidental
project-specific detail. Global learnings remain evidence, not commands. If
relevant project and global learnings point in different directions, present
the concise conflict and ask the user what should guide the current work; do
not invent a separate conflict record.

When work shows that a project learning is wrong or needs a material revision,
run `tincan search <learning-id>` before changing memory. Search indexes the
`source_record` provenance of global learnings, so this reveals any global
learning derived from the project record. Review each derived learning and ask
the user before updating it. Do not propagate corrections automatically, and do
not perform this check for routine code changes that do not alter a learning.

## Wrap up

Treat natural requests such as "wrap up", "done for today", "good night",
"what did we learn", and "where do I start tomorrow" as a wrap-up request.

1. Review the conversation, current journal, and plan for meaningful completed
   outcomes, accepted decisions, evidence-supported learnings, remaining
   direction, open questions, and the next starting point.
2. Record any missed durable decisions or learnings. Do not invent acceptance
   or evidence.
3. Update `.tincan/plan.md` so it reflects only current direction.
4. Update today's journal only where the handoff materially changed. Keep
   bullets short and do not duplicate Git history, decisions, or learnings;
   their existing records are canonical.
5. Run `tincan resume` and show the finalized journal to the user.

Distinguish implemented and verified work from work that was only decided or
planned. Do not let bookkeeping block the user's main work.
"#;

/// A directory that receives Agent Skills, and the harness it serves.
pub struct SkillRoot {
    pub name: String,
    pub path: String,
}

/// A skill root as values.
pub open spec fn root_view(r: SkillRoot) -> (Seq<char>, Seq<char>) {
    (r.name@, r.path@)
}

/// Skill roots as values.
pub open spec fn root_views(rs: Seq<SkillRoot>) -> Seq<(Seq<char>, Seq<char>)> {
    rs.map_values(|r: SkillRoot| root_view(r))
}

// ---------------------------------------------------------------------------
// Detecting harnesses
// ---------------------------------------------------------------------------

/// A harness that may be present: its name, the directory whose presence
/// shows it is installed, and its skills directory.
pub struct SkillCandidate {
    pub name: String,
    pub marker: String,
    pub skills: String,
}

/// A candidate as values.
pub open spec fn candidate_view(c: SkillCandidate) -> (Seq<char>, Seq<char>, Seq<char>) {
    (c.name@, c.marker@, c.skills@)
}

/// The candidate for a harness whose marker is `marker`.
pub open spec fn candidate_at(name: Seq<char>, marker: Seq<char>) -> (Seq<char>, Seq<char>, Seq<char>) {
    (name, marker, joined_path(marker, "skills"@))
}

/// The harnesses Tincan looks for, in order: Codex under `CODEX_HOME`, then
/// under the home directory Agent Skills, Codex, Cursor, Gemini CLI and
/// OpenCode.
pub open spec fn skill_candidates(home: Option<Seq<char>>, codex_home: Option<Seq<char>>) -> Seq<
    (Seq<char>, Seq<char>, Seq<char>),
> {
    (match codex_home {
        Some(c) => seq![candidate_at("Codex"@, c)],
        None => Seq::empty(),
    }) + match home {
        Some(h) => seq![
            candidate_at("Agent Skills"@, joined_path(h, ".agents"@)),
            candidate_at("Codex"@, joined_path(h, ".codex"@)),
            candidate_at("Cursor"@, joined_path(h, ".cursor"@)),
            candidate_at("Gemini CLI"@, joined_path(h, ".gemini"@)),
            candidate_at("OpenCode"@, joined_path(joined_path(h, ".config"@), "opencode"@)),
        ],
        None => Seq::empty(),
    }
}

fn candidate(name: &str, marker: String) -> (c: SkillCandidate)
    ensures
        candidate_view(c) == candidate_at(name@, marker@),
{
    let skills = crate::store::join_path(marker.as_str(), "skills");
    SkillCandidate { name: string_of(chars_of(name).as_slice()), marker, skills }
}

/// The harnesses to look for, given the home directory and `CODEX_HOME`.
pub fn skill_markers(home: Option<&str>, codex_home: Option<&str>) -> (r: Vec<SkillCandidate>)
    ensures
        r@.map_values(|c: SkillCandidate| candidate_view(c)) == skill_candidates(
            match home {
                Some(h) => Some(h@),
                None => None,
            },
            match codex_home {
                Some(c) => Some(c@),
                None => None,
            },
        ),
{
    let mut out: Vec<SkillCandidate> = Vec::new();
    match codex_home {
        Some(c) => {
            out.push(candidate("Codex", string_of(chars_of(c).as_slice())));
        },
        None => {},
    }
    let ghost first = out@.map_values(|c: SkillCandidate| candidate_view(c));
    match home {
        Some(h) => {
            out.push(candidate("Agent Skills", crate::store::join_path(h, ".agents")));
            out.push(candidate("Codex", crate::store::join_path(h, ".codex")));
            out.push(candidate("Cursor", crate::store::join_path(h, ".cursor")));
            out.push(candidate("Gemini CLI", crate::store::join_path(h, ".gemini")));
            let config = crate::store::join_path(h, ".config");
            out.push(candidate("OpenCode", crate::store::join_path(config.as_str(), "opencode")));
        },
        None => {},
    }
    assert(out@.map_values(|c: SkillCandidate| candidate_view(c)) =~= skill_candidates(
        match home {
            Some(h) => Some(h@),
            None => None,
        },
        match codex_home {
            Some(c) => Some(c@),
            None => None,
        },
    ));
    out
}

/// The key under which a skills directory counts as already offered: `/`
/// for every `\`, and ASCII case folded on Windows.
pub open spec fn root_key(skills: Seq<char>, windows: bool) -> Seq<char> {
    let k = forward_slashes(skills);
    if windows {
        k.map_values(|c: char| crate::ids::ascii_lower(c))
    } else {
        k
    }
}

/// A present candidate is offered unless an earlier present candidate has
/// the same key.
pub open spec fn offered(
    cs: Seq<(Seq<char>, Seq<char>, Seq<char>)>,
    present: Seq<bool>,
    windows: bool,
    i: int,
) -> bool {
    present[i] && !exists|j: int|
        0 <= j < i && present[j] && root_key(#[trigger] cs[j].2, windows) == root_key(cs[i].2, windows)
}

/// The skill roots offered among the first `n` candidates, in order.
pub open spec fn offered_roots(
    cs: Seq<(Seq<char>, Seq<char>, Seq<char>)>,
    present: Seq<bool>,
    windows: bool,
    n: int,
) -> Seq<(Seq<char>, Seq<char>)>
    decreases n,
{
    if n <= 0 {
        seq![]
    } else {
        offered_roots(cs, present, windows, n - 1) + if offered(cs, present, windows, n - 1) {
            seq![(cs[n - 1].0, cs[n - 1].2)]
        } else {
            Seq::empty()
        }
    }
}

fn key_of(skills: &str, windows: bool) -> (k: Vec<char>)
    ensures
        k@ == root_key(skills@, windows),
{
    let c = chars_of(skills);
    let k = crate::text::replace(c.as_slice(), &['\\'], &['/']);
    assert(seq!['\\'] =~= ['\\']@);
    assert(seq!['/'] =~= ['/']@);
    if !windows {
        return k;
    }
    let mut out: Vec<char> = Vec::new();
    let mut i: usize = 0;
    while i < k.len()
        invariant
            i <= k.len(),
            out@ == k@.take(i as int).map_values(|c: char| crate::ids::ascii_lower(c)),
        decreases k.len() - i,
    {
        let ch = k[i];
        let lower = if 'A' <= ch && ch <= 'Z' {
            ((ch as u8) + 32) as char
        } else {
            ch
        };
        out.push(lower);
        assert(k@.take(i + 1) =~= k@.take(i as int).push(ch));
        assert(out@ =~= k@.take(i + 1).map_values(|c: char| crate::ids::ascii_lower(c)));
        i = i + 1;
    }
    assert(k@.take(k.len() as int) =~= k@);
    out
}

/// The skill roots of the harnesses found on this machine: each candidate
/// whose marker directory is present (`present`, in candidate order), once
/// per skills directory.
pub fn detect_roots_from(candidates: &Vec<SkillCandidate>, present: &Vec<bool>, windows: bool) -> (r: Vec<SkillRoot>)
    requires
        present.len() == candidates.len(),
    ensures
        root_views(r@) == offered_roots(
            candidates@.map_values(|c: SkillCandidate| candidate_view(c)),
            present@,
            windows,
            candidates.len() as int,
        ),
{
    let ghost cs = candidates@.map_values(|c: SkillCandidate| candidate_view(c));
    let mut roots: Vec<SkillRoot> = Vec::new();
    let mut seen: Vec<Vec<char>> = Vec::new();
    let mut i: usize = 0;
    while i < candidates.len()
        invariant
            i <= candidates.len(),
            present.len() == candidates.len(),
            cs == candidates@.map_values(|c: SkillCandidate| candidate_view(c)),
            root_views(roots@) == offered_roots(cs, present@, windows, i as int),
            forall|k: Seq<char>| views(seen@).contains(k) <==> exists|j: int|
                0 <= j < i && present@[j] && root_key(#[trigger] cs[j].2, windows) == k,
        decreases candidates.len() - i,
    {
        assert(cs[i as int] == candidate_view(candidates@[i as int]));
        if present[i] {
            let key = key_of(candidates[i].skills.as_str(), windows);
            let mut found = false;
            let mut k: usize = 0;
            while k < seen.len()
                invariant
                    k <= seen.len(),
                    found == exists|m: int| 0 <= m < k && seen@[m]@ == key@,
                decreases seen.len() - k,
            {
                if same(seen[k].as_slice(), key.as_slice()) {
                    found = true;
                }
                k = k + 1;
            }
            assert(found == views(seen@).contains(key@)) by {
                if found {
                    let m = choose|m: int| 0 <= m < seen.len() && seen@[m]@ == key@;
                    assert(views(seen@)[m] == key@);
                }
                if views(seen@).contains(key@) {
                    let m = choose|m: int| 0 <= m < views(seen@).len() && views(seen@)[m] == key@;
                    assert(seen@[m]@ == key@);
                }
            }
            let ghost prev_roots = root_views(roots@);
            let ghost prev_seen = views(seen@);
            if !found {
                roots.push(SkillRoot {
                    name: candidates[i].name.clone(),
                    path: candidates[i].skills.clone(),
                });
                assert(root_views(roots@) =~= prev_roots + seq![(cs[i as int].0, cs[i as int].2)]);
                seen.push(key);
                assert(views(seen@) =~= prev_seen.push(key@));
            } else {
                assert(root_views(roots@) =~= prev_roots + Seq::<(Seq<char>, Seq<char>)>::empty());
            }
            assert forall|kk: Seq<char>| views(seen@).contains(kk) <==> exists|j: int|
                0 <= j < i + 1 && present@[j] && root_key(#[trigger] cs[j].2, windows) == kk by {
                if views(seen@).contains(kk) && !prev_seen.contains(kk) {
                    assert(kk == key@);
                }
                if exists|j: int| 0 <= j < i + 1 && present@[j] && root_key(#[trigger] cs[j].2, windows) == kk {
                    let j = choose|j: int| 0 <= j < i + 1 && present@[j] && root_key(#[trigger] cs[j].2, windows) == kk;
                    if j == i {
                        if !found {
                            assert(views(seen@)[views(seen@).len() - 1] == kk);
                        }
                    } else {
                        assert(prev_seen.contains(kk));
                        let m = choose|m: int| 0 <= m < prev_seen.len() && prev_seen[m] == kk;
                        assert(views(seen@)[m] == kk);
                    }
                }
            }
        } else {
            assert(root_views(roots@) =~= root_views(roots@) + Seq::<(Seq<char>, Seq<char>)>::empty());
            assert forall|kk: Seq<char>| views(seen@).contains(kk) <==> exists|j: int|
                0 <= j < i + 1 && present@[j] && root_key(#[trigger] cs[j].2, windows) == kk by {
                if exists|j: int| 0 <= j < i + 1 && present@[j] && root_key(#[trigger] cs[j].2, windows) == kk {
                    let j = choose|j: int| 0 <= j < i + 1 && present@[j] && root_key(#[trigger] cs[j].2, windows) == kk;
                    assert(j != i);
                }
            }
        }
        i = i + 1;
    }
    roots
}

// ---------------------------------------------------------------------------
// Choosing destinations
// ---------------------------------------------------------------------------

/// A path on one line: line breaks become spaces.
pub open spec fn one_line(s: Seq<char>) -> Seq<char> {
    s.map_values(|c: char| if c == '\n' || c == '\r' { ' ' } else { c })
}

/// The picker label of a root: `name: path`, on one line.
pub open spec fn root_label(r: (Seq<char>, Seq<char>)) -> Seq<char> {
    r.0 + ": "@ + one_line(r.1)
}

/// The picker labels of the roots, in order.
pub fn selection_labels(roots: &Vec<SkillRoot>) -> (r: Vec<String>)
    ensures
        strs(r@) == root_views(roots@).map_values(|x: (Seq<char>, Seq<char>)| root_label(x)),
{
    let ghost rv = root_views(roots@);
    let mut out: Vec<String> = Vec::new();
    let mut i: usize = 0;
    while i < roots.len()
        invariant
            i <= roots.len(),
            rv == root_views(roots@),
            strs(out@) == rv.take(i as int).map_values(|x: (Seq<char>, Seq<char>)| root_label(x)),
        decreases roots.len() - i,
    {
        let mut label = chars_of(roots[i].name.as_str());
        push_str(&mut label, ": ");
        let p = chars_of(roots[i].path.as_str());
        let ghost before = label@;
        let mut k: usize = 0;
        while k < p.len()
            invariant
                k <= p.len(),
                label@ == before + one_line(p@.take(k as int)),
            decreases p.len() - k,
        {
            let c = p[k];
            if c == '\n' || c == '\r' {
                label.push(' ');
            } else {
                label.push(c);
            }
            assert(p@.take(k + 1) =~= p@.take(k as int).push(c));
            assert(label@ =~= before + one_line(p@.take(k + 1)));
            k = k + 1;
        }
        assert(p@.take(p.len() as int) =~= p@);
        assert(rv[i as int] == root_view(roots@[i as int]));
        let ghost prev = strs(out@);
        out.push(string_of(label.as_slice()));
        assert(strs(out@) =~= prev.push(root_label(rv[i as int])));
        assert(rv.take(i + 1) =~= rv.take(i as int).push(rv[i as int]));
        assert(rv.take(i + 1).map_values(|x: (Seq<char>, Seq<char>)| root_label(x)) =~= rv.take(
            i as int,
        ).map_values(|x: (Seq<char>, Seq<char>)| root_label(x)).push(root_label(rv[i as int])));
        i = i + 1;
    }
    assert(rv.take(roots.len() as int) =~= rv);
    out
}

/// Every root starts selected.
pub fn default_selections(roots: &Vec<SkillRoot>) -> (r: Vec<bool>)
    ensures
        r.len() == roots.len(),
        forall|i: int| 0 <= i < r.len() ==> r@[i],
{
    let mut out: Vec<bool> = Vec::new();
    let mut i: usize = 0;
    while i < roots.len()
        invariant
            i <= roots.len(),
            out.len() == i,
            forall|k: int| 0 <= k < i ==> out@[k],
        decreases roots.len() - i,
    {
        out.push(true);
        i = i + 1;
    }
    out
}

/// The paths of the chosen roots, in the order chosen; indices past the end
/// are ignored.
pub open spec fn chosen_paths(roots: Seq<(Seq<char>, Seq<char>)>, indices: Seq<usize>) -> Seq<Seq<char>>
    decreases indices.len(),
{
    if indices.len() == 0 {
        seq![]
    } else {
        chosen_paths(roots, indices.drop_last()) + if indices.last() < roots.len() {
            seq![roots[indices.last() as int].1]
        } else {
            Seq::<Seq<char>>::empty()
        }
    }
}

/// The skills directories the picker's chosen indices name.
pub fn selected_paths(roots: &Vec<SkillRoot>, indices: &[usize]) -> (r: Vec<String>)
    ensures
        strs(r@) == chosen_paths(root_views(roots@), indices@),
{
    let ghost rv = root_views(roots@);
    let mut out: Vec<String> = Vec::new();
    let mut i: usize = 0;
    while i < indices.len()
        invariant
            i <= indices.len(),
            rv == root_views(roots@),
            strs(out@) == chosen_paths(rv, indices@.take(i as int)),
        decreases indices.len() - i,
    {
        let ix = indices[i];
        assert(indices@.take(i + 1).drop_last() =~= indices@.take(i as int));
        assert(indices@.take(i + 1).last() == ix);
        let ghost prev = strs(out@);
        if ix < roots.len() {
            assert(rv[ix as int] == root_view(roots@[ix as int]));
            out.push(roots[ix].path.clone());
            assert(strs(out@) =~= prev + seq![rv[ix as int].1]);
        } else {
            assert(strs(out@) =~= prev + Seq::<Seq<char>>::empty());
        }
        i = i + 1;
    }
    assert(indices@.take(indices.len() as int) =~= indices@);
    out
}

/// Installing into directories Tincan found itself, after the user confirmed
/// them, updates differing installations; an explicit path does so only with
/// `--force`.
pub fn overwrite_existing_skill(path: Option<&str>, force: bool) -> (r: bool)
    ensures
        r == (path is None || force),
{
    path.is_none() || force
}

// ---------------------------------------------------------------------------
// Installing
// ---------------------------------------------------------------------------

/// What installing into one skills directory will do.
pub enum InstallPlan {
    /// The installation there is current.
    Current(String),
    /// The skill will be written there.
    Write(String),
}

/// What installing into one skills directory did.
pub enum InstallOutcome {
    Installed(String),
    AlreadyCurrent(String),
}

/// What Tincan found at a skills directory before installing.
pub struct InstallCheck {
    /// The skills directory.
    pub root: String,
    /// The installed `SKILL.md`, when it is a file.
    pub installed_skill: Option<String>,
    /// The installed agent metadata is a file that matches this version.
    pub metadata_current: bool,
    /// The `tincan` directory there exists.
    pub destination_exists: bool,
}

/// The `tincan` directory inside a skills directory.
pub open spec fn destination(root: Seq<char>) -> Seq<char> {
    joined_path(root, "tincan"@)
}

/// What installing into a skills directory will do: nothing when its skill
/// and metadata match this version; otherwise write, unless a differing
/// installation exists and overwriting was not allowed.
pub open spec fn plan_for(
    root: Seq<char>,
    installed_skill: Option<Seq<char>>,
    metadata_current: bool,
    destination_exists: bool,
    force: bool,
) -> Result<(bool, Seq<char>), Seq<char>> {
    if installed_skill == Some(SKILL@) && metadata_current {
        Ok((true, destination(root)))
    } else if destination_exists && !force {
        Err(destination(root)
            + " already exists and differs from this Tincan version; rerun with --force to update Tincan-owned files"@)
    } else {
        Ok((false, destination(root)))
    }
}

/// Installing is idempotent and protects what differs: a directory that
/// already holds this version's skill with current metadata is left as it is,
/// with or without `--force`, and a directory is written over only when it
/// does not exist yet or overwriting was allowed.
pub proof fn lemma_install_idempotent(
    root: Seq<char>,
    installed_skill: Option<Seq<char>>,
    metadata_current: bool,
    destination_exists: bool,
    force: bool,
)
    ensures
        plan_for(root, Some(SKILL@), true, destination_exists, force) == Ok::<(bool, Seq<char>), Seq<char>>(
            (true, destination(root)),
        ),
        plan_for(root, installed_skill, metadata_current, destination_exists, force) matches Ok((false, _))
            ==> !destination_exists || force,
{
}

/// Installing twice over the same directory, and over a local edit: a new
/// directory is written; once it holds this version's skill, with current
/// metadata, the next plan leaves it as it is; a differing skill there is
/// refused without `--force` and written over with it.
pub proof fn lemma_install_twice(root: Seq<char>, other: Seq<char>, metadata_current: bool)
    requires
        other != SKILL@,
    ensures
        plan_for(root, None, metadata_current, false, false) == Ok::<(bool, Seq<char>), Seq<char>>(
            (false, destination(root)),
        ),
        plan_for(root, Some(SKILL@), true, true, false) == Ok::<(bool, Seq<char>), Seq<char>>(
            (true, destination(root)),
        ),
        plan_for(root, Some(other), metadata_current, true, false) is Err,
        plan_for(root, Some(other), metadata_current, true, true) == Ok::<(bool, Seq<char>), Seq<char>>(
            (false, destination(root)),
        ),
{
}

/// A plan as whether it is current, and its destination.
pub open spec fn plan_view(p: InstallPlan) -> (bool, Seq<char>) {
    match p {
        InstallPlan::Current(d) => (true, d@),
        InstallPlan::Write(d) => (false, d@),
    }
}

/// The plan for one skills directory.
pub fn install_plan(check: &InstallCheck, force: bool) -> (r: Result<InstallPlan, String>)
    ensures
        match plan_for(
            check.root@,
            match check.installed_skill {
                Some(s) => Some(s@),
                None => None,
            },
            check.metadata_current,
            check.destination_exists,
            force,
        ) {
            Ok(p) => r is Ok && plan_view(r->Ok_0) == p,
            Err(e) => r is Err && r->Err_0@ == e,
        },
{
    let dest = crate::store::join_path(check.root.as_str(), "tincan");
    let current = match &check.installed_skill {
        Some(s) => {
            let sc = chars_of(s.as_str());
            let bundled = chars_of(SKILL);
            same(sc.as_slice(), bundled.as_slice())
        },
        None => false,
    } && check.metadata_current;
    if current {
        return Ok(InstallPlan::Current(dest));
    }
    if check.destination_exists && !force {
        let mut e = chars_of(dest.as_str());
        push_str(
            &mut e,
            " already exists and differs from this Tincan version; rerun with --force to update Tincan-owned files",
        );
        return Err(string_of(e.as_slice()));
    }
    Ok(InstallPlan::Write(dest))
}

/// The plan for what Tincan found at a skills directory.
pub open spec fn check_plan(c: InstallCheck, force: bool) -> Result<(bool, Seq<char>), Seq<char>> {
    plan_for(
        c.root@,
        match c.installed_skill {
            Some(s) => Some(s@),
            None => None,
        },
        c.metadata_current,
        c.destination_exists,
        force,
    )
}

/// The plans for every skills directory, checked before anything is
/// written: the first directory that cannot be installed stops them all.
pub fn install_many(checks: &Vec<InstallCheck>, force: bool) -> (r: Result<Vec<InstallPlan>, String>)
    ensures
        r is Ok ==> r->Ok_0.len() == checks.len() && forall|i: int|
            0 <= i < checks.len() ==> check_plan(checks@[i], force) == Ok::<(bool, Seq<char>), Seq<char>>(
                plan_view(#[trigger] r->Ok_0@[i]),
            ),
        r is Err ==> exists|i: int|
            0 <= i < checks.len() && (forall|k: int| 0 <= k < i ==> (#[trigger] check_plan(checks@[k], force)) is Ok)
                && check_plan(checks@[i], force) == Err::<(bool, Seq<char>), Seq<char>>(r->Err_0@),
{
    let mut plans: Vec<InstallPlan> = Vec::new();
    let mut i: usize = 0;
    while i < checks.len()
        invariant
            i <= checks.len(),
            plans.len() == i,
            forall|k: int|
                0 <= k < i ==> check_plan(checks@[k], force) == Ok::<(bool, Seq<char>), Seq<char>>(
                    plan_view(#[trigger] plans@[k]),
                ),
        decreases checks.len() - i,
    {
        match install_plan(&checks[i], force) {
            Ok(p) => {
                plans.push(p);
            },
            Err(e) => {
                assert(forall|k: int| 0 <= k < i ==> (#[trigger] check_plan(checks@[k], force)) is Ok) by {
                    assert forall|k: int| 0 <= k < i implies (#[trigger] check_plan(checks@[k], force)) is Ok by {
                        assert(check_plan(checks@[k], force) == Ok::<(bool, Seq<char>), Seq<char>>(
                            plan_view(plans@[k]),
                        ));
                    }
                }
                assert(check_plan(checks@[i as int], force) == Err::<(bool, Seq<char>), Seq<char>>(e@));
                return Err(e);
            },
        }
        i = i + 1;
    }
    Ok(plans)
}

// ---------------------------------------------------------------------------
// Installation health
// ---------------------------------------------------------------------------

/// The state of the skill at one skills directory.
#[derive(Clone, Copy, Debug, PartialEq, Eq, Structural)]
pub enum InstallationState {
    Current,
    UpdateAvailable,
    NotInstalled,
}

/// The state of the skill at one skills directory.
pub struct InstallationStatus {
    pub root: SkillRoot,
    pub state: InstallationState,
}

/// A status as values.
pub open spec fn status_view(s: InstallationStatus) -> (Seq<char>, Seq<char>, InstallationState) {
    (s.root.name@, s.root.path@, s.state)
}

/// The listing line of an installation: its harness and skill directory.
pub open spec fn location_line(s: (Seq<char>, Seq<char>, InstallationState)) -> Seq<char> {
    "- "@ + s.0 + " ("@ + displayed_path(joined_path(s.1, "tincan"@)) + ")"@
}

/// The installations in a state, in order.
pub open spec fn in_state(
    sts: Seq<(Seq<char>, Seq<char>, InstallationState)>,
    state: InstallationState,
) -> Seq<(Seq<char>, Seq<char>, InstallationState)>
    decreases sts.len(),
{
    if sts.len() == 0 {
        seq![]
    } else {
        in_state(sts.drop_last(), state) + if sts.last().2 == state {
            seq![sts.last()]
        } else {
            Seq::empty()
        }
    }
}

/// The listing lines of installations.
pub open spec fn locations(sts: Seq<(Seq<char>, Seq<char>, InstallationState)>) -> Seq<Seq<char>> {
    sts.map_values(|s: (Seq<char>, Seq<char>, InstallationState)| location_line(s))
}

/// The health report: whether the skill is missing, current everywhere, or
/// needs updates somewhere, then where.
pub open spec fn status_report(sts: Seq<(Seq<char>, Seq<char>, InstallationState)>) -> Seq<Seq<char>> {
    let current = in_state(sts, InstallationState::Current);
    let outdated = in_state(sts, InstallationState::UpdateAvailable);
    if sts.len() == 0 {
        seq!["No supported Agent Skills destinations detected."@]
    } else if current.len() == 0 && outdated.len() == 0 {
        seq!["Agent Skill is not installed."@, "Available destinations:"@] + locations(sts) + seq![
            "Run `tincan skill install` to install it."@,
        ]
    } else if outdated.len() == 0 {
        seq!["Agent Skill is up to date everywhere."@, "Installed in:"@] + locations(current)
    } else {
        seq!["Agent Skill update available."@, "Needs update:"@] + locations(outdated) + (if current.len()
            > 0 {
            seq!["Already up to date:"@] + locations(current)
        } else {
            Seq::empty()
        }) + seq!["Run `tincan skill install` to update."@]
    }
}

fn push_text(lines: &mut Vec<String>, s: &str)
    ensures
        strs(final(lines)@) == strs(old(lines)@).push(s@),
{
    let ghost prev = strs(lines@);
    lines.push(string_of(chars_of(s).as_slice()));
    assert(strs(lines@) =~= prev.push(s@));
}

fn push_locations(lines: &mut Vec<String>, statuses: &Vec<InstallationStatus>, state: Option<InstallationState>)
    ensures
        strs(final(lines)@) == strs(old(lines)@) + locations(
            match state {
                Some(st) => in_state(
                    statuses@.map_values(|s: InstallationStatus| status_view(s)),
                    st,
                ),
                None => statuses@.map_values(|s: InstallationStatus| status_view(s)),
            },
        ),
{
    let ghost sv = statuses@.map_values(|s: InstallationStatus| status_view(s));
    let ghost start = strs(lines@);
    let ghost pick = |sts: Seq<(Seq<char>, Seq<char>, InstallationState)>| match state {
        Some(st) => in_state(sts, st),
        None => sts,
    };
    let mut i: usize = 0;
    while i < statuses.len()
        invariant
            i <= statuses.len(),
            sv == statuses@.map_values(|s: InstallationStatus| status_view(s)),
            strs(lines@) == start + locations(match state {
                Some(st) => in_state(sv.take(i as int), st),
                None => sv.take(i as int),
            }),
        decreases statuses.len() - i,
    {
        let st = &statuses[i];
        assert(sv.take(i + 1).drop_last() =~= sv.take(i as int));
        assert(sv.take(i + 1).last() == status_view(*st));
        let keep = match state {
            Some(s) => st.state == s,
            None => true,
        };
        let ghost prev = strs(lines@);
        if keep {
            let mut line = chars_of("- ");
            push_str(&mut line, st.root.name.as_str());
            push_str(&mut line, " (");
            let joined = crate::store::join_path(st.root.path.as_str(), "tincan");
            let shown = crate::util::display_path(joined.as_str());
            push_str(&mut line, shown.as_str());
            push_str(&mut line, ")");
            lines.push(string_of(line.as_slice()));
            assert(strs(lines@) =~= prev.push(location_line(status_view(*st))));
        }
        proof {
            let now = match state {
                Some(s) => in_state(sv.take(i + 1), s),
                None => sv.take(i + 1),
            };
            let before = match state {
                Some(s) => in_state(sv.take(i as int), s),
                None => sv.take(i as int),
            };
            if keep {
                assert(now =~= before.push(status_view(*st)));
                assert(locations(now) =~= locations(before).push(location_line(status_view(*st))));
            } else {
                assert(now =~= before);
            }
        }
        i = i + 1;
    }
    assert(sv.take(statuses.len() as int) =~= sv);
}

fn count_state(statuses: &Vec<InstallationStatus>, state: InstallationState) -> (n: usize)
    ensures
        n == in_state(statuses@.map_values(|s: InstallationStatus| status_view(s)), state).len(),
{
    let ghost sv = statuses@.map_values(|s: InstallationStatus| status_view(s));
    let mut n: usize = 0;
    let mut i: usize = 0;
    while i < statuses.len()
        invariant
            i <= statuses.len(),
            n <= i,
            sv == statuses@.map_values(|s: InstallationStatus| status_view(s)),
            n == in_state(sv.take(i as int), state).len(),
        decreases statuses.len() - i,
    {
        assert(sv.take(i + 1).drop_last() =~= sv.take(i as int));
        assert(sv.take(i + 1).last() == status_view(statuses@[i as int]));
        if statuses[i].state == state {
            n = n + 1;
        }
        i = i + 1;
    }
    assert(sv.take(statuses.len() as int) =~= sv);
    n
}

/// The lines of `skill status`: installation health first, then where the
/// skill is installed or could be.
pub fn skill_status_lines(statuses: &Vec<InstallationStatus>) -> (r: Vec<String>)
    ensures
        strs(r@) == status_report(statuses@.map_values(|s: InstallationStatus| status_view(s))),
{
    let ghost sv = statuses@.map_values(|s: InstallationStatus| status_view(s));
    let mut lines: Vec<String> = Vec::new();
    if statuses.len() == 0 {
        push_text(&mut lines, "No supported Agent Skills destinations detected.");
        assert(strs(lines@) =~= status_report(sv));
        return lines;
    }
    let current = count_state(statuses, InstallationState::Current);
    let outdated = count_state(statuses, InstallationState::UpdateAvailable);
    if current == 0 && outdated == 0 {
        push_text(&mut lines, "Agent Skill is not installed.");
        push_text(&mut lines, "Available destinations:");
        push_locations(&mut lines, statuses, None);
        push_text(&mut lines, "Run `tincan skill install` to install it.");
        assert(strs(lines@) =~= status_report(sv));
        return lines;
    }
    if outdated == 0 {
        push_text(&mut lines, "Agent Skill is up to date everywhere.");
        push_text(&mut lines, "Installed in:");
        push_locations(&mut lines, statuses, Some(InstallationState::Current));
        assert(strs(lines@) =~= status_report(sv));
        return lines;
    }
    push_text(&mut lines, "Agent Skill update available.");
    push_text(&mut lines, "Needs update:");
    push_locations(&mut lines, statuses, Some(InstallationState::UpdateAvailable));
    let ghost mid = strs(lines@);
    if current > 0 {
        push_text(&mut lines, "Already up to date:");
        push_locations(&mut lines, statuses, Some(InstallationState::Current));
    }
    push_text(&mut lines, "Run `tincan skill install` to update.");
    assert(strs(lines@) =~= status_report(sv));
    lines
}

proof fn lemma_in_state_filter(
    sts: Seq<(Seq<char>, Seq<char>, InstallationState)>,
    state: InstallationState,
)
    ensures
        in_state(sts, state) == sts.filter(|s: (Seq<char>, Seq<char>, InstallationState)| s.2 == state),
    decreases sts.len(),
{
    reveal(Seq::filter);
    if sts.len() > 0 {
        lemma_in_state_filter(sts.drop_last(), state);
        let prev = in_state(sts.drop_last(), state);
        if sts.last().2 == state {
            assert(in_state(sts, state) =~= prev.push(sts.last()));
        } else {
            assert(in_state(sts, state) =~= prev);
        }
    } else {
        assert(in_state(sts, state) =~= sts.filter(|s: (Seq<char>, Seq<char>, InstallationState)| s.2 == state));
    }
}

/// When the skill is current somewhere and nowhere needs an update, the
/// report says it is up to date and lists, under `Installed in:`, exactly the
/// destinations where it is current, in order.
pub proof fn lemma_status_lists_current(sts: Seq<(Seq<char>, Seq<char>, InstallationState)>)
    requires
        exists|i: int| 0 <= i < sts.len() && #[trigger] sts[i].2 == InstallationState::Current,
        forall|i: int| 0 <= i < sts.len() ==> #[trigger] sts[i].2 != InstallationState::UpdateAvailable,
    ensures
        status_report(sts) == seq!["Agent Skill is up to date everywhere."@, "Installed in:"@] + sts.filter(
            |s: (Seq<char>, Seq<char>, InstallationState)| s.2 == InstallationState::Current,
        ).map_values(|s: (Seq<char>, Seq<char>, InstallationState)| location_line(s)),
{
    lemma_in_state_filter(sts, InstallationState::Current);
    lemma_in_state_filter(sts, InstallationState::UpdateAvailable);
    let pc = |s: (Seq<char>, Seq<char>, InstallationState)| s.2 == InstallationState::Current;
    let pu = |s: (Seq<char>, Seq<char>, InstallationState)| s.2 == InstallationState::UpdateAvailable;
    let i = choose|i: int| 0 <= i < sts.len() && #[trigger] sts[i].2 == InstallationState::Current;
    sts.lemma_filter_contains(pc, i);
    assert(sts.filter(pc).len() > 0);
    if sts.filter(pu).len() > 0 {
        let x = sts.filter(pu)[0];
        sts.lemma_filter_pred(pu, 0);
        assert(sts.filter(pu).contains(x));
        sts.lemma_filter_contains_rev(pu, x);
        let k = choose|k: int| 0 <= k < sts.len() && sts[k] == x;
        assert(sts[k].2 != InstallationState::UpdateAvailable);
    }
}

/// When the skill needs an update somewhere, the report lists under
/// `Needs update:` exactly the destinations that need one, and under
/// `Already up to date:` exactly those where it is current, each in order.
pub proof fn lemma_status_lists_outdated(sts: Seq<(Seq<char>, Seq<char>, InstallationState)>)
    requires
        exists|i: int| 0 <= i < sts.len() && #[trigger] sts[i].2 == InstallationState::UpdateAvailable,
    ensures
        ({
            let cur = sts.filter(|s: (Seq<char>, Seq<char>, InstallationState)| s.2 == InstallationState::Current);
            let outdated = sts.filter(
                |s: (Seq<char>, Seq<char>, InstallationState)| s.2 == InstallationState::UpdateAvailable,
            );
            let line = |s: (Seq<char>, Seq<char>, InstallationState)| location_line(s);
            status_report(sts) == seq!["Agent Skill update available."@, "Needs update:"@] + outdated.map_values(line)
                + (if cur.len() > 0 {
                seq!["Already up to date:"@] + cur.map_values(line)
            } else {
                Seq::empty()
            }) + seq!["Run `tincan skill install` to update."@]
        }),
{
    lemma_in_state_filter(sts, InstallationState::Current);
    lemma_in_state_filter(sts, InstallationState::UpdateAvailable);
    let pu = |s: (Seq<char>, Seq<char>, InstallationState)| s.2 == InstallationState::UpdateAvailable;
    let i = choose|i: int| 0 <= i < sts.len() && #[trigger] sts[i].2 == InstallationState::UpdateAvailable;
    sts.lemma_filter_contains(pu, i);
    assert(sts.filter(pu).len() > 0);
}

/// When the skill is installed nowhere, the report offers every destination,
/// in order.
pub proof fn lemma_status_offers_all(sts: Seq<(Seq<char>, Seq<char>, InstallationState)>)
    requires
        sts.len() > 0,
        forall|i: int| 0 <= i < sts.len() ==> #[trigger] sts[i].2 == InstallationState::NotInstalled,
    ensures
        status_report(sts) == seq!["Agent Skill is not installed."@, "Available destinations:"@]
            + sts.map_values(|s: (Seq<char>, Seq<char>, InstallationState)| location_line(s)) + seq![
            "Run `tincan skill install` to install it."@,
        ],
{
    lemma_in_state_filter(sts, InstallationState::Current);
    lemma_in_state_filter(sts, InstallationState::UpdateAvailable);
    let pc = |s: (Seq<char>, Seq<char>, InstallationState)| s.2 == InstallationState::Current;
    let pu = |s: (Seq<char>, Seq<char>, InstallationState)| s.2 == InstallationState::UpdateAvailable;
    if sts.filter(pc).len() > 0 {
        sts.lemma_filter_pred(pc, 0);
        sts.lemma_filter_contains_rev(pc, sts.filter(pc)[0]);
        let k = choose|k: int| 0 <= k < sts.len() && sts[k] == sts.filter(pc)[0];
        assert(sts[k].2 == InstallationState::NotInstalled);
    }
    if sts.filter(pu).len() > 0 {
        sts.lemma_filter_pred(pu, 0);
        sts.lemma_filter_contains_rev(pu, sts.filter(pu)[0]);
        let k = choose|k: int| 0 <= k < sts.len() && sts[k] == sts.filter(pu)[0];
        assert(sts[k].2 == InstallationState::NotInstalled);
    }
}

} // verus!
