//! The option scanner behind every subcommand: `--name value`, switches,
//! `-d`/`-v`, and positional arguments.
use vstd::prelude::*;
use crate::text::{has_prefix, strs, views, chars_of, string_of, push_all, push_str, same, text_is,
    starts_with_str, skip};

verus! {

/// Option names that take no value.
pub open spec fn is_switch(name: Seq<char>) -> bool {
    ||| name == "changed"@
    ||| name == "force"@
    ||| name == "verbose"@
    ||| name == "all-time"@
    ||| name == "all-projects"@
    ||| name == "yes"@
}

/// Arguments that are options rather than values: `--anything`, `-d`, `-v`.
pub open spec fn is_option(v: Seq<char>) -> bool {
    has_prefix(v, "--"@) || v == "-d"@ || v == "-v"@
}

/// The message for an option that is not accepted.
pub open spec fn unknown_option_message(option: Seq<char>) -> Seq<char> {
    "unknown option "@ + option + "; run `tincan --help` and retry with a listed option"@
}

/// What the scanner found: options with their values, in order, and the
/// positional arguments, in order.
pub struct FlagsModel {
    pub values: Seq<(Seq<char>, Option<Seq<char>>)>,
    pub positionals: Seq<Seq<char>>,
}

/// `f` with an option in front.
pub open spec fn with_option(
    f: Result<FlagsModel, Seq<char>>,
    name: Seq<char>,
    value: Option<Seq<char>>,
) -> Result<FlagsModel, Seq<char>> {
    match f {
        Ok(m) => Ok(FlagsModel { values: seq![(name, value)] + m.values, positionals: m.positionals }),
        Err(e) => Err(e),
    }
}

/// `f` with a positional argument in front.
pub open spec fn with_positional(f: Result<FlagsModel, Seq<char>>, p: Seq<char>) -> Result<
    FlagsModel,
    Seq<char>,
> {
    match f {
        Ok(m) => Ok(FlagsModel { values: m.values, positionals: seq![p] + m.positionals }),
        Err(e) => Err(e),
    }
}

/// Scanning `args` from index `i`: `--name` is a switch or takes the next
/// argument as its value (which must not itself be an option), `-d` is
/// `--directory`, `-v` is the `verbose` switch, any other `-...` is refused,
/// and everything else is positional.
pub open spec fn scanned_from(args: Seq<Seq<char>>, i: int) -> Result<FlagsModel, Seq<char>>
    decreases args.len() - i,
{
    if i < 0 || i >= args.len() {
        Ok(FlagsModel { values: seq![], positionals: seq![] })
    } else {
        let v = args[i];
        let has_value = i + 1 < args.len() && !is_option(args[i + 1]);
        if has_prefix(v, "--"@) {
            let name = v.skip(2);
            if name.len() == 0 {
                Err("empty flag"@)
            } else if is_switch(name) {
                with_option(scanned_from(args, i + 1), name, None)
            } else if has_value {
                with_option(scanned_from(args, i + 2), name, Some(args[i + 1]))
            } else {
                Err("--"@ + name + " requires a value"@)
            }
        } else if v == "-d"@ {
            if has_value {
                with_option(scanned_from(args, i + 2), "directory"@, Some(args[i + 1]))
            } else {
                Err(v + " requires a value"@)
            }
        } else if v == "-v"@ {
            with_option(scanned_from(args, i + 1), "verbose"@, None)
        } else if has_prefix(v, "-"@) {
            Err(unknown_option_message(v))
        } else {
            with_positional(scanned_from(args, i + 1), v)
        }
    }
}

/// Scanning all of `args`.
pub open spec fn scanned(args: Seq<Seq<char>>) -> Result<FlagsModel, Seq<char>> {
    scanned_from(args, 0)
}

/// Scanned options and positional arguments.
pub struct Flags {
    pub values: Vec<(Vec<char>, Option<Vec<char>>)>,
    pub positionals: Vec<Vec<char>>,
}

/// The view of one scanned option.
pub open spec fn entry_view(e: (Vec<char>, Option<Vec<char>>)) -> (Seq<char>, Option<Seq<char>>) {
    (
        e.0@,
        match e.1 {
            Some(v) => Some(v@),
            None => None,
        },
    )
}

impl View for Flags {
    type V = FlagsModel;

    open spec fn view(&self) -> FlagsModel {
        FlagsModel {
            values: self.values@.map_values(|e: (Vec<char>, Option<Vec<char>>)| entry_view(e)),
            positionals: views(self.positionals@),
        }
    }
}

/// Every option without a value is a switch or `verbose`.
pub open spec fn well_scanned(m: FlagsModel) -> bool {
    forall|k: int|
        0 <= k < m.values.len() && (#[trigger] m.values[k]).1 is None ==> is_switch(
            m.values[k].0,
        ) || m.values[k].0 == "verbose"@
}

/// Putting an option in front keeps value-less entries switches.
proof fn lemma_front_well(r: FlagsModel, m: FlagsModel, name: Seq<char>, value: Option<Seq<char>>)
    requires
        well_scanned(r),
        m.values == seq![(name, value)] + r.values,
        value is None ==> is_switch(name) || name == "verbose"@,
    ensures
        well_scanned(m),
{
    assert forall|k: int| 0 <= k < m.values.len() && (#[trigger] m.values[k]).1 is None implies is_switch(
        m.values[k].0,
    ) || m.values[k].0 == "verbose"@ by {
        if k > 0 {
            assert(m.values[k] == r.values[k - 1]);
        }
    }
}

/// Scanning only leaves value-less entries for switches.
pub proof fn lemma_scanned_well(args: Seq<Seq<char>>, i: int)
    ensures
        scanned_from(args, i) is Ok ==> well_scanned(scanned_from(args, i)->Ok_0),
    decreases args.len() - i,
{
    if 0 <= i < args.len() {
        lemma_scanned_well(args, i + 1);
        if i + 2 <= args.len() {
            lemma_scanned_well(args, i + 2);
        }
        let v = args[i];
        if scanned_from(args, i) is Ok {
            let m = scanned_from(args, i)->Ok_0;
            if has_prefix(v, "--"@) {
                if is_switch(v.skip(2)) {
                    lemma_front_well(scanned_from(args, i + 1)->Ok_0, m, v.skip(2), None);
                } else {
                    lemma_front_well(scanned_from(args, i + 2)->Ok_0, m, v.skip(2), Some(args[i + 1]));
                }
            } else if v == "-d"@ {
                lemma_front_well(scanned_from(args, i + 2)->Ok_0, m, "directory"@, Some(args[i + 1]));
            } else if v == "-v"@ {
                lemma_front_well(scanned_from(args, i + 1)->Ok_0, m, "verbose"@, None);
            } else {
                assert(m.values == scanned_from(args, i + 1)->Ok_0.values);
            }
        }
    }
}

fn is_switch_name(name: &[char]) -> (r: bool)
    ensures
        r == is_switch(name@),
{
    text_is(name, "changed") || text_is(name, "force") || text_is(name, "verbose") || text_is(name, "all-time") || text_is(
        name,
        "all-projects",
    ) || text_is(name, "yes")
}

fn is_option_arg(v: &[char]) -> (r: bool)
    ensures
        r == is_option(v@),
{
    starts_with_str(v, "--") || text_is(v, "-d") || text_is(v, "-v")
}

/// The value of the last occurrence of option `name`, when it has one.
pub open spec fn one_value(m: FlagsModel, name: Seq<char>) -> Option<Seq<char>>
    decreases m.values.len(),
{
    if m.values.len() == 0 {
        None
    } else if m.values.last().0 == name {
        m.values.last().1
    } else {
        one_value(FlagsModel { values: m.values.drop_last(), positionals: m.positionals }, name)
    }
}

/// The values of every occurrence of option `name`, in order.
pub open spec fn many_values(values: Seq<(Seq<char>, Option<Seq<char>>)>, name: Seq<char>) -> Seq<
    Seq<char>,
>
    decreases values.len(),
{
    if values.len() == 0 {
        seq![]
    } else {
        let rest = many_values(values.drop_last(), name);
        if values.last().0 == name && values.last().1 is Some {
            rest.push(values.last().1->0)
        } else {
            rest
        }
    }
}

/// Whether option `name` occurs at all.
pub open spec fn is_present(m: FlagsModel, name: Seq<char>) -> bool {
    exists|k: int| 0 <= k < m.values.len() && (#[trigger] m.values[k]).0 == name
}

/// How often option `name` occurs.
pub open spec fn occurrences(values: Seq<(Seq<char>, Option<Seq<char>>)>, name: Seq<char>) -> nat
    decreases values.len(),
{
    if values.len() == 0 {
        0
    } else {
        occurrences(values.drop_last(), name) + if values.last().0 == name {
            1nat
        } else {
            0nat
        }
    }
}

/// The first option whose name is not `allowed`, if any.
pub open spec fn first_disallowed(values: Seq<(Seq<char>, Option<Seq<char>>)>, allowed: Seq<Seq<char>>) -> Option<Seq<char>>
    decreases values.len(),
{
    if values.len() == 0 {
        None
    } else if !allowed.contains(values[0].0) {
        Some(values[0].0)
    } else {
        first_disallowed(values.drop_first(), allowed)
    }
}

/// The first of `names` given more than once, if any.
pub open spec fn first_repeated(m: FlagsModel, names: Seq<Seq<char>>) -> Option<Seq<char>>
    decreases names.len(),
{
    if names.len() == 0 {
        None
    } else if occurrences(m.values, names[0]) > 1 {
        Some(names[0])
    } else {
        first_repeated(m, names.drop_first())
    }
}

/// The message for an option given twice.
pub open spec fn repeated_message(name: Seq<char>) -> Seq<char> {
    "--"@ + name + " may only be provided once; keep the intended value and retry"@
}

/// Refusal of options outside `allowed`, then of repeats among `once`.
pub open spec fn option_problem(m: FlagsModel, allowed: Seq<Seq<char>>, once: Seq<Seq<char>>) -> Option<Seq<char>> {
    match first_disallowed(m.values, allowed) {
        Some(n) => Some(unknown_option_message("--"@ + n)),
        None => match first_repeated(m, once) {
            Some(n) => Some(repeated_message(n)),
            None => None,
        },
    }
}

/// `f` after the options and positionals already scanned in `acc`.
pub open spec fn after(acc: FlagsModel, f: Result<FlagsModel, Seq<char>>) -> Result<FlagsModel, Seq<char>> {
    match f {
        Ok(m) => Ok(FlagsModel { values: acc.values + m.values, positionals: acc.positionals + m.positionals }),
        Err(e) => Err(e),
    }
}

proof fn lemma_after_option(acc: FlagsModel, f: Result<FlagsModel, Seq<char>>, name: Seq<char>, value: Option<Seq<char>>)
    ensures
        after(acc, with_option(f, name, value)) == after(
            FlagsModel { values: acc.values.push((name, value)), positionals: acc.positionals },
            f,
        ),
{
    if f is Ok {
        let m = f->Ok_0;
        assert(acc.values + (seq![(name, value)] + m.values) =~= acc.values.push((name, value)) + m.values);
    }
}

proof fn lemma_after_positional(acc: FlagsModel, f: Result<FlagsModel, Seq<char>>, p: Seq<char>)
    ensures
        after(acc, with_positional(f, p)) == after(
            FlagsModel { values: acc.values, positionals: acc.positionals.push(p) },
            f,
        ),
{
    if f is Ok {
        let m = f->Ok_0;
        assert(acc.positionals + (seq![p] + m.positionals) =~= acc.positionals.push(p) + m.positionals);
    }
}

impl Flags {
    /// Scans `args` into options and positional arguments.
    pub fn parse(args: &[String]) -> (r: Result<Flags, String>)
        ensures
            match scanned(strs(args@)) {
                Ok(m) => r is Ok && r->Ok_0@ == m,
                Err(e) => r is Err && r->Err_0@ == e,
            },
            r is Ok ==> well_scanned(r->Ok_0@),
    {
        proof {
            lemma_scanned_well(strs(args@), 0);
        }
        let mut parsed = Flags { values: Vec::new(), positionals: Vec::new() };
        let ghost a = strs(args@);
        let mut index: usize = 0;
        assert(parsed@.values =~= Seq::<(Seq<char>, Option<Seq<char>>)>::empty());
        assert(parsed@.positionals =~= Seq::<Seq<char>>::empty());
        proof {
            let f = scanned_from(a, 0);
            if f is Ok {
                assert(f->Ok_0.values =~= Seq::<(Seq<char>, Option<Seq<char>>)>::empty() + f->Ok_0.values);
                assert(f->Ok_0.positionals =~= Seq::<Seq<char>>::empty() + f->Ok_0.positionals);
            }
        }
        while index < args.len()
            invariant
                a == strs(args@),
                a.len() == args@.len(),
                index <= args.len(),
                scanned(a) == after(parsed@, scanned_from(a, index as int)),
            decreases args.len() - index,
        {
            let v = chars_of(args[index].as_str());
            assert(a[index as int] == v@);
            let has_value = index + 1 < args.len() && !is_option_arg(
                chars_of(args[index + 1].as_str()).as_slice(),
            );
            proof {
                if index + 1 < args.len() {
                    assert(a[index + 1] == args@[index + 1]@);
                }
            }
            let ghost before = parsed@;
            if starts_with_str(v.as_slice(), "--") {
                proof {
                    reveal_strlit("--");
                }
                let name = skip(v.as_slice(), 2);
                if name.len() == 0 {
                    proof {
                        reveal_strlit("empty flag");
                    }
                    return Err(string_of(chars_of("empty flag").as_slice()));
                }
                if is_switch_name(name.as_slice()) {
                    proof {
                        lemma_after_option(before, scanned_from(a, index + 1), name@, None);
                    }
                    parsed.values.push((name, None));
                    assert(parsed@.values =~= before.values.push((name@, None)));
                    index = index + 1;
                } else if has_value {
                    let value = chars_of(args[index + 1].as_str());
                    proof {
                        lemma_after_option(before, scanned_from(a, index + 2), name@, Some(value@));
                    }
                    parsed.values.push((name, Some(value)));
                    assert(parsed@.values =~= before.values.push((name@, Some(value@))));
                    index = index + 2;
                } else {
                    let mut e = chars_of("--");
                    push_all(&mut e, name.as_slice());
                    push_str(&mut e, " requires a value");
                    return Err(string_of(e.as_slice()));
                }
            } else if text_is(v.as_slice(), "-d") {
                if has_value {
                    let value = chars_of(args[index + 1].as_str());
                    let key = chars_of("directory");
                    proof {
                        lemma_after_option(before, scanned_from(a, index + 2), "directory"@, Some(value@));
                    }
                    parsed.values.push((key, Some(value)));
                    assert(parsed@.values =~= before.values.push(("directory"@, Some(value@))));
                    index = index + 2;
                } else {
                    let mut e = crate::text::to_vec(v.as_slice());
                    push_str(&mut e, " requires a value");
                    return Err(string_of(e.as_slice()));
                }
            } else if text_is(v.as_slice(), "-v") {
                let key = chars_of("verbose");
                proof {
                    lemma_after_option(before, scanned_from(a, index + 1), "verbose"@, None);
                }
                parsed.values.push((key, None));
                assert(parsed@.values =~= before.values.push(("verbose"@, None)));
                index = index + 1;
            } else if starts_with_str(v.as_slice(), "-") {
                let mut e = chars_of("unknown option ");
                push_all(&mut e, v.as_slice());
                push_str(&mut e, "; run `tincan --help` and retry with a listed option");
                return Err(string_of(e.as_slice()));
            } else {
                proof {
                    lemma_after_positional(before, scanned_from(a, index + 1), v@);
                }
                parsed.positionals.push(v);
                assert(parsed@.positionals =~= before.positionals.push(v@));
                index = index + 1;
            }
        }
        proof {
            assert(parsed@.values + Seq::<(Seq<char>, Option<Seq<char>>)>::empty() =~= parsed@.values);
            assert(parsed@.positionals + Seq::<Seq<char>>::empty() =~= parsed@.positionals);
        }
        Ok(parsed)
    }
}

/// The names held by a slice of string literals.
pub open spec fn names(v: Seq<&str>) -> Seq<Seq<char>> {
    v.map_values(|x: &str| x@)
}

fn contains_name(allowed: &[&str], name: &[char]) -> (r: bool)
    ensures
        r == names(allowed@).contains(name@),
{
    let mut i: usize = 0;
    while i < allowed.len()
        invariant
            i <= allowed.len(),
            forall|k: int| 0 <= k < i ==> names(allowed@)[k] != name@,
        decreases allowed.len() - i,
    {
        if text_is(name, allowed[i]) {
            assert(names(allowed@)[i as int] == name@);
            return true;
        }
        i = i + 1;
    }
    false
}

impl Flags {
    /// The value of the last occurrence of option `name`, when it has one.
    pub fn one(&self, name: &str) -> (r: Option<String>)
        ensures
            match one_value(self@, name@) {
                Some(v) => r is Some && r->0@ == v,
                None => r is None,
            },
    {
        let n = chars_of(name);
        let mut k: usize = self.values.len();
        assert(self@.values.take(k as int) =~= self@.values);
        assert(FlagsModel { values: self@.values.take(k as int), positionals: self@.positionals } == self@);
        while k > 0
            invariant
                k <= self.values.len(),
                n@ == name@,
                one_value(self@, name@) == one_value(
                    FlagsModel { values: self@.values.take(k as int), positionals: self@.positionals },
                    name@,
                ),
            decreases k,
        {
            let ghost cur = FlagsModel { values: self@.values.take(k as int), positionals: self@.positionals };
            assert(cur.values.last() == entry_view(self.values@[k - 1]));
            if same(self.values[k - 1].0.as_slice(), n.as_slice()) {
                return match &self.values[k - 1].1 {
                    Some(v) => Some(string_of(v.as_slice())),
                    None => None,
                };
            }
            assert(cur.values.drop_last() =~= self@.values.take(k - 1));
            k = k - 1;
        }
        None
    }

    /// The values of every occurrence of option `name`, in order.
    pub fn many(&self, name: &str) -> (r: Vec<String>)
        ensures
            strs(r@) == many_values(self@.values, name@),
    {
        let n = chars_of(name);
        let mut out: Vec<String> = Vec::new();
        let mut i: usize = 0;
        while i < self.values.len()
            invariant
                i <= self.values.len(),
                n@ == name@,
                strs(out@) == many_values(self@.values.take(i as int), name@),
            decreases self.values.len() - i,
        {
            assert(self@.values.take(i + 1).drop_last() =~= self@.values.take(i as int));
            assert(self@.values.take(i + 1).last() == entry_view(self.values@[i as int]));
            if same(self.values[i].0.as_slice(), n.as_slice()) {
                match &self.values[i].1 {
                    Some(v) => {
                        let s = string_of(v.as_slice());
                        let ghost prev = strs(out@);
                        out.push(s);
                        assert(strs(out@) =~= prev.push(s@));
                    },
                    None => {},
                }
            }
            i = i + 1;
        }
        assert(self@.values.take(self.values.len() as int) =~= self@.values);
        out
    }

    /// Whether option `name` occurs.
    pub fn present(&self, name: &str) -> (r: bool)
        ensures
            r == is_present(self@, name@),
    {
        let n = chars_of(name);
        let mut i: usize = 0;
        while i < self.values.len()
            invariant
                i <= self.values.len(),
                n@ == name@,
                forall|k: int| 0 <= k < i ==> (#[trigger] self@.values[k]).0 != name@,
            decreases self.values.len() - i,
        {
            assert(self@.values[i as int] == entry_view(self.values@[i as int]));
            if same(self.values[i].0.as_slice(), n.as_slice()) {
                return true;
            }
            i = i + 1;
        }
        false
    }

    fn count(&self, name: &[char]) -> (c: usize)
        ensures
            c == occurrences(self@.values, name@),
    {
        let mut c: usize = 0;
        let mut i: usize = 0;
        while i < self.values.len()
            invariant
                i <= self.values.len(),
                c == occurrences(self@.values.take(i as int), name@),
                c <= i,
            decreases self.values.len() - i,
        {
            assert(self@.values.take(i + 1).drop_last() =~= self@.values.take(i as int));
            assert(self@.values.take(i + 1).last() == entry_view(self.values@[i as int]));
            if same(self.values[i].0.as_slice(), name) {
                c = c + 1;
            }
            i = i + 1;
        }
        assert(self@.values.take(self.values.len() as int) =~= self@.values);
        c
    }

    /// Refuses options outside `allowed` (the first one met), then repeats of
    /// any of `once` (the first name in `once` given twice).
    pub fn check(&self, allowed: &[&str], once: &[&str]) -> (r: Result<(), String>)
        ensures
            match option_problem(self@, names(allowed@), names(once@)) {
                Some(e) => r is Err && r->Err_0@ == e,
                None => r is Ok,
            },
    {
        let mut i: usize = 0;
        assert(self@.values.skip(0) =~= self@.values);
        while i < self.values.len()
            invariant
                i <= self.values.len(),
                first_disallowed(self@.values, names(allowed@)) == first_disallowed(
                    self@.values.skip(i as int),
                    names(allowed@),
                ),
            decreases self.values.len() - i,
        {
            assert(self@.values.skip(i as int)[0] == entry_view(self.values@[i as int]));
            if !contains_name(allowed, self.values[i].0.as_slice()) {
                let mut e = chars_of("unknown option --");
                push_all(&mut e, self.values[i].0.as_slice());
                push_str(&mut e, "; run `tincan --help` and retry with a listed option");
                proof {
                    reveal_strlit("unknown option --");
                    reveal_strlit("unknown option ");
                    reveal_strlit("--");
                    assert("unknown option --"@ =~= "unknown option "@ + "--"@);
                }
                return Err(string_of(e.as_slice()));
            }
            assert(self@.values.skip(i as int).drop_first() =~= self@.values.skip(i + 1));
            i = i + 1;
        }
        let mut j: usize = 0;
        assert(names(once@).skip(0) =~= names(once@));
        while j < once.len()
            invariant
                j <= once.len(),
                first_disallowed(self@.values, names(allowed@)) is None,
                first_repeated(self@, names(once@)) == first_repeated(self@, names(once@).skip(j as int)),
            decreases once.len() - j,
        {
            let n = chars_of(once[j]);
            assert(names(once@).skip(j as int)[0] == once@[j as int]@);
            if self.count(n.as_slice()) > 1 {
                let mut e = chars_of("--");
                push_all(&mut e, n.as_slice());
                push_str(&mut e, " may only be provided once; keep the intended value and retry");
                return Err(string_of(e.as_slice()));
            }
            assert(names(once@).skip(j as int).drop_first() =~= names(once@).skip(j + 1));
            j = j + 1;
        }
        Ok(())
    }
}

} // verus!
