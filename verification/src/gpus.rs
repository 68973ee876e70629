//! The graphics adapters line: adapters of one name are reported once, with
//! their number, the programming interfaces they are reached through, and
//! their drivers.

use vstd::prelude::*;
use vstd::string::StringExecFns;
use crate::pattern::{is_match, regex_is_match, regex_replace, replace_first};
use crate::text::{clean, cleaned, decimal, format_tree_list, push_decimal, tree_list};

verus! {

/// A driver that says it is the open-source driver of AMD.
pub const AMDGPU_PATTERN: &'static str = "(?i)AMD open-source driver";

/// Driver information that mentions Mesa.
pub const MESA_PATTERN: &'static str = "(?i)Mesa";

/// A backend that is Vulkan.
pub const VULKAN_PATTERN: &'static str = "(?i)vulkan";

/// A backend that is a kind of OpenGL.
pub const GL_PATTERN: &'static str = "(?i)gl";

/// The bracket in which Mesa puts compiler and kernel versions behind an
/// adapter's name.
pub const MESA_NAME_PATTERN: &'static str = "(?i)\\(.*(LLVM|DRM).*\\)";

/// What the report says where there is no adapter.
pub const NO_GPUS: &'static str = "None... found?";

/// A driver that the report knows by name.
#[derive(Clone, Copy, Debug, PartialEq, Eq, Structural)]
pub enum Driver {
    AMDgpu,
    Mesa,
}

/// What a graphics adapter says of itself.
pub struct Adapter {
    pub name: String,
    pub driver: String,
    pub driver_info: String,
    pub backend: String,
}

/// What the report keeps of one adapter.
pub struct AdapterFacts {
    pub name: String,
    pub driver: Option<Driver>,
    pub vulkan: bool,
    pub gl: bool,
}

/// The adapters of one name.
pub struct AdapterCnt {
    pub count: usize,
    pub name: String,
    pub drivers: Vec<Driver>,
    pub vulkan: bool,
    pub gl: bool,
    pub unrecognized_drivers: usize,
}

/// `AdapterFacts` as a value of specifications.
pub struct Facts {
    pub name: Seq<char>,
    pub driver: Option<Driver>,
    pub vulkan: bool,
    pub gl: bool,
}

/// `AdapterCnt` as a value of specifications.
pub struct Summary {
    pub count: nat,
    pub name: Seq<char>,
    pub drivers: Seq<Driver>,
    pub vulkan: bool,
    pub gl: bool,
    pub unrecognized_drivers: nat,
}

impl View for AdapterFacts {
    type V = Facts;

    open spec fn view(&self) -> Facts {
        Facts { name: self.name@, driver: self.driver, vulkan: self.vulkan, gl: self.gl }
    }
}

impl View for AdapterCnt {
    type V = Summary;

    open spec fn view(&self) -> Summary {
        Summary {
            count: self.count as nat,
            name: self.name@,
            drivers: self.drivers@,
            vulkan: self.vulkan,
            gl: self.gl,
            unrecognized_drivers: self.unrecognized_drivers as nat,
        }
    }
}

/// The facts of every adapter of a list.
pub open spec fn facts_views(facts: Seq<AdapterFacts>) -> Seq<Facts> {
    Seq::new(facts.len(), |i: int| facts[i]@)
}

/// The summaries of a list.
pub open spec fn summary_views(summaries: Seq<AdapterCnt>) -> Seq<Summary> {
    Seq::new(summaries.len(), |i: int| summaries[i]@)
}

/// The driver that the two tests name: the driver's own word counts before
/// what the driver information mentions.
pub open spec fn driver_of(says_amdgpu: bool, mentions_mesa: bool) -> Option<Driver> {
    if says_amdgpu {
        Some(Driver::AMDgpu)
    } else if mentions_mesa {
        Some(Driver::Mesa)
    } else {
        None
    }
}

impl Adapter {
    /// What the report keeps of this adapter.
    pub open spec fn facts(self) -> Facts {
        Facts {
            name: cleaned(regex_replace(MESA_NAME_PATTERN@, self.name@, ""@), self.name@),
            driver: driver_of(
                regex_is_match(AMDGPU_PATTERN@, self.driver@) == Some(true),
                regex_is_match(MESA_PATTERN@, self.driver_info@) == Some(true),
            ),
            vulkan: regex_is_match(VULKAN_PATTERN@, self.backend@) == Some(true),
            gl: regex_is_match(GL_PATTERN@, self.backend@) == Some(true),
        }
    }
}

/// The facts of every adapter of a list.
pub open spec fn adapter_facts(adapters: Seq<Adapter>) -> Seq<Facts> {
    Seq::new(adapters.len(), |i: int| adapters[i].facts())
}

/// The summary of no adapter yet under `name`.
pub open spec fn no_adapters(name: Seq<char>) -> Summary {
    Summary {
        count: 0,
        name,
        drivers: Seq::empty(),
        vulkan: false,
        gl: false,
        unrecognized_drivers: 0,
    }
}

/// `s` with one more adapter counted in.
pub open spec fn counted_in(s: Summary, f: Facts) -> Summary {
    Summary {
        count: s.count + 1,
        name: s.name,
        drivers: match f.driver {
            Some(d) => s.drivers.push(d),
            None => s.drivers,
        },
        vulkan: s.vulkan || f.vulkan,
        gl: s.gl || f.gl,
        unrecognized_drivers: if f.driver is None {
            s.unrecognized_drivers + 1
        } else {
            s.unrecognized_drivers
        },
    }
}

/// The summary of the adapters in `facts` that are reported as `name`.
pub open spec fn summary_for(facts: Seq<Facts>, name: Seq<char>) -> Summary
    decreases facts.len(),
{
    if facts.len() == 0 {
        no_adapters(name)
    } else {
        let before = summary_for(facts.drop_last(), name);
        if facts.last().name == name {
            counted_in(before, facts.last())
        } else {
            before
        }
    }
}

/// The names in `facts`, each once, in the order in which they first occur.
pub open spec fn names_in_order(facts: Seq<Facts>) -> Seq<Seq<char>>
    decreases facts.len(),
{
    if facts.len() == 0 {
        Seq::empty()
    } else {
        let before = names_in_order(facts.drop_last());
        if before.contains(facts.last().name) {
            before
        } else {
            before.push(facts.last().name)
        }
    }
}

/// One summary for every name in `facts`, in the order in which the names
/// first occur.
pub open spec fn summaries_of(facts: Seq<Facts>) -> Seq<Summary> {
    Seq::new(names_in_order(facts).len(), |g: int| summary_for(facts, names_in_order(facts)[g]))
}

/// The programming interfaces of a summary, as the report names them.
pub open spec fn interfaces(s: Summary) -> Seq<Seq<char>> {
    if s.gl && s.vulkan {
        seq!["Vulkan/OpenGL"@]
    } else if s.gl {
        seq!["OpenGL"@]
    } else if s.vulkan {
        seq!["Vulkan"@]
    } else {
        Seq::empty()
    }
}

/// The name of a driver.
pub open spec fn driver_name(d: Driver) -> Seq<char> {
    match d {
        Driver::AMDgpu => "AMDgpu"@,
        Driver::Mesa => "Mesa"@,
    }
}

/// What a summary says of drivers that were not recognized.
pub open spec fn unrecognized_note(n: nat) -> Seq<Seq<char>> {
    if n > 1 {
        seq![decimal(n) + " unrecognized drivers"@]
    } else if n == 1 {
        seq!["1 unrecognized driver"@]
    } else {
        Seq::empty()
    }
}

/// The remarks on a summary: interfaces, then the drivers one by one, then
/// the note on unrecognized drivers.
pub open spec fn remarks(s: Summary) -> Seq<Seq<char>> {
    interfaces(s) + s.drivers.map_values(|d: Driver| driver_name(d)) + unrecognized_note(
        s.unrecognized_drivers,
    )
}

/// `parts` in one text, with a comma and a space between neighbours.
pub open spec fn comma_list(parts: Seq<Seq<char>>) -> Seq<char>
    decreases parts.len(),
{
    if parts.len() == 0 {
        Seq::empty()
    } else if parts.len() == 1 {
        parts[0]
    } else {
        comma_list(parts.drop_last()) + ", "@ + parts.last()
    }
}

/// The entry of a summary: its name and, in brackets, its remarks.
pub open spec fn description(s: Summary) -> Seq<char> {
    s.name + " ("@ + comma_list(remarks(s)) + ")"@
}

/// The entries of a list of summaries.
pub open spec fn descriptions(summaries: Seq<Summary>) -> Seq<Seq<char>> {
    Seq::new(summaries.len(), |g: int| description(summaries[g]))
}

/// Every name of `names_in_order` occurs in the list, and no name twice.
pub proof fn lemma_names_in_order(facts: Seq<Facts>)
    ensures
        names_in_order(facts).no_duplicates(),
        forall|i: int|
            0 <= i < facts.len() ==> names_in_order(facts).contains(#[trigger] facts[i].name),
        forall|g: int|
            0 <= g < names_in_order(facts).len() ==> summary_for(
                facts,
                #[trigger] names_in_order(facts)[g],
            ).count > 0,
    decreases facts.len(),
{
    if facts.len() > 0 {
        let rest = facts.drop_last();
        let before = names_in_order(rest);
        lemma_names_in_order(rest);
        let names = names_in_order(facts);
        assert forall|i: int| 0 <= i < facts.len() implies names.contains(
            #[trigger] facts[i].name,
        ) by {
            if i < facts.len() - 1 {
                assert(facts[i] == rest[i]);
                let g = choose|g: int| 0 <= g < before.len() && before[g] == rest[i].name;
                assert(names[g] == facts[i].name);
            } else if before.contains(facts.last().name) {
            } else {
                assert(names[before.len() as int] == facts.last().name);
            }
        }
        assert forall|g: int| 0 <= g < names.len() implies summary_for(
            facts,
            #[trigger] names[g],
        ).count > 0 by {
            if g < before.len() {
                assert(names[g] == before[g]);
            }
        }
    }
}

/// The counts of all summaries add up to the number of adapters.
pub proof fn lemma_summaries_count_all(facts: Seq<Facts>)
    ensures
        total_count(facts, names_in_order(facts)) == facts.len(),
    decreases facts.len(),
{
    if facts.len() > 0 {
        let rest = facts.drop_last();
        let before = names_in_order(rest);
        let name = facts.last().name;
        lemma_summaries_count_all(rest);
        lemma_names_in_order(rest);
        if before.contains(name) {
            lemma_total_count_step(facts, before);
        } else {
            lemma_total_count_step(facts, before);
            lemma_absent_name(rest, name);
            assert(before.push(name).drop_last() =~= before);
        }
    }
}

/// The sum of the counts of the summaries for `names`.
pub open spec fn total_count(facts: Seq<Facts>, names: Seq<Seq<char>>) -> nat
    decreases names.len(),
{
    if names.len() == 0 {
        0
    } else {
        total_count(facts, names.drop_last()) + summary_for(facts, names.last()).count
    }
}

/// One more adapter adds one to the sum over a list of distinct names that
/// holds its name, and nothing to one that does not.
proof fn lemma_total_count_step(facts: Seq<Facts>, names: Seq<Seq<char>>)
    requires
        facts.len() > 0,
        names.no_duplicates(),
    ensures
        total_count(facts, names) == total_count(facts.drop_last(), names) + (if names.contains(
            facts.last().name,
        ) {
            1nat
        } else {
            0nat
        }),
    decreases names.len(),
{
    if names.len() > 0 {
        let shorter = names.drop_last();
        assert forall|i: int, j: int|
            0 <= i < shorter.len() && 0 <= j < shorter.len() && i != j implies shorter[i]
            != shorter[j] by {
            assert(shorter[i] == names[i] && shorter[j] == names[j]);
        }
        lemma_total_count_step(facts, shorter);
        let name = facts.last().name;
        if names.last() == name {
            assert(!shorter.contains(name)) by {
                if shorter.contains(name) {
                    let i = choose|i: int| 0 <= i < shorter.len() && shorter[i] == name;
                    assert(names[i] == names[names.len() - 1]);
                }
            }
            assert(names.contains(name)) by {
                assert(names[names.len() - 1] == name);
            }
        } else {
            if shorter.contains(name) {
                let i = choose|i: int| 0 <= i < shorter.len() && shorter[i] == name;
                assert(names[i] == name);
            }
            if names.contains(name) {
                let i = choose|i: int| 0 <= i < names.len() && names[i] == name;
                assert(shorter[i] == name);
            }
        }
    }
}

/// A name that no adapter has is summarized as no adapters.
proof fn lemma_absent_name(facts: Seq<Facts>, name: Seq<char>)
    requires
        !names_in_order(facts).contains(name),
    ensures
        summary_for(facts, name) == no_adapters(name),
    decreases facts.len(),
{
    if facts.len() > 0 {
        let rest = facts.drop_last();
        let before = names_in_order(rest);
        let names = names_in_order(facts);
        if before.contains(name) {
            let g = choose|g: int| 0 <= g < before.len() && before[g] == name;
            assert(names[g] == name);
        }
        if facts.last().name == name {
            if before.contains(name) {
            } else {
                assert(names[before.len() as int] == name);
            }
        }
        lemma_absent_name(rest, name);
    }
}

/// Decides on the driver, given what the two tests found.
pub fn pick_driver(says_amdgpu: bool, mentions_mesa: bool) -> (driver: Option<Driver>)
    ensures
        driver == driver_of(says_amdgpu, mentions_mesa),
{
    if says_amdgpu {
        Some(Driver::AMDgpu)
    } else if mentions_mesa {
        Some(Driver::Mesa)
    } else {
        None
    }
}

/// Whether `pattern` matches in `text`.
fn matches(pattern: &str, text: &str) -> (found: bool)
    ensures
        found == (regex_is_match(pattern@, text@) == Some(true)),
{
    match is_match(pattern, text) {
        Some(found) => found,
        None => false,
    }
}

/// Extracts what the report keeps of an adapter.
pub fn classify(adapter: &Adapter) -> (facts: AdapterFacts)
    ensures
        facts@ == adapter.facts(),
{
    let without_bracket = replace_first(MESA_NAME_PATTERN, adapter.name.as_str(), "");
    let name = match &without_bracket {
        Some(n) => clean(Some(n.as_str()), adapter.name.as_str()),
        None => clean(None, adapter.name.as_str()),
    };
    let driver = pick_driver(
        matches(AMDGPU_PATTERN, adapter.driver.as_str()),
        matches(MESA_PATTERN, adapter.driver_info.as_str()),
    );
    let vulkan = matches(VULKAN_PATTERN, adapter.backend.as_str());
    let gl = matches(GL_PATTERN, adapter.backend.as_str());
    AdapterFacts { name, driver, vulkan, gl }
}

/// The summary that holds `name`, if there is one.
fn find_summary(summaries: &Vec<AdapterCnt>, name: &String) -> (found: Option<usize>)
    ensures
        match found {
            Some(g) => g < summaries@.len() && summaries@[g as int].name@ == name@,
            None => forall|g: int|
                0 <= g < summaries@.len() ==> (#[trigger] summaries@[g]).name@ != name@,
        },
{
    let mut g: usize = 0;
    while g < summaries.len()
        invariant
            g <= summaries@.len(),
            forall|h: int| 0 <= h < g ==> (#[trigger] summaries@[h]).name@ != name@,
        decreases summaries@.len() - g,
    {
        if summaries[g].name == *name {
            return Some(g);
        }
        g = g + 1;
    }
    None
}

/// Counts one adapter into the summary of its name.
fn count_in(summary: &mut AdapterCnt, facts: &AdapterFacts)
    requires
        old(summary).count < usize::MAX,
        old(summary).unrecognized_drivers <= old(summary).count,
    ensures
        final(summary)@ == counted_in(old(summary)@, facts@),
        final(summary).unrecognized_drivers <= final(summary).count,
{
    summary.count = summary.count + 1;
    summary.gl = summary.gl || facts.gl;
    summary.vulkan = summary.vulkan || facts.vulkan;
    match facts.driver {
        Some(d) => {
            summary.drivers.push(d);
        },
        None => {
            summary.unrecognized_drivers = summary.unrecognized_drivers + 1;
        },
    }
}

/// Sums up the adapters of each name.
pub fn summarize(facts: &Vec<AdapterFacts>) -> (summaries: Vec<AdapterCnt>)
    ensures
        summary_views(summaries@) == summaries_of(facts_views(facts@)),
{
    let ghost all = facts_views(facts@);
    let mut summaries: Vec<AdapterCnt> = Vec::new();
    let mut i: usize = 0;
    assert(all.take(0) =~= Seq::<Facts>::empty());
    while i < facts.len()
        invariant
            i <= facts@.len(),
            all == facts_views(facts@),
            summary_views(summaries@) =~= summaries_of(all.take(i as int)),
            forall|g: int|
                0 <= g < summaries@.len() ==> (#[trigger] summaries@[g]).unrecognized_drivers
                    <= summaries@[g].count <= i,
        decreases facts@.len() - i,
    {
        let ghost seen = all.take(i as int);
        let ghost now = all.take(i + 1);
        let ghost before = summaries@;
        let ghost names = names_in_order(seen);
        let fact = &facts[i];
        proof {
            assert(now.drop_last() =~= seen);
            assert(now.last() == fact@);
            assert(summary_views(before).len() == before.len());
            assert(summaries_of(seen).len() == names.len());
            assert forall|g: int| 0 <= g < before.len() implies (#[trigger] before[g]).name@
                == names[g] by {
                assert(summary_views(before)[g] == summaries_of(seen)[g]);
                lemma_summary_name(seen, names[g]);
            }
        }
        match find_summary(&summaries, &fact.name) {
            Some(g) => {
                count_in(&mut summaries[g], fact);
                proof {
                    assert(names[g as int] == fact@.name);
                    assert(names.contains(fact@.name));
                    assert(names_in_order(now) == names);
                    lemma_names_in_order(seen);
                    assert(summaries@.len() == before.len());
                    assert(summaries@[g as int]@ == counted_in(before[g as int]@, fact@));
                    assert forall|h: int| 0 <= h < summaries@.len() implies summary_views(
                        summaries@,
                    )[h] == summaries_of(now)[h] by {
                        assert(summary_views(before)[h] == summaries_of(seen)[h]);
                        assert(before[h].name@ == names[h]);
                        assert(summaries_of(now)[h] == summary_for(now, names[h]));
                        assert(summaries_of(seen)[h] == summary_for(seen, names[h]));
                        if h != g {
                            assert(summaries@[h] == before[h]);
                        }
                    }
                }
            },
            None => {
                let mut drivers: Vec<Driver> = Vec::new();
                let mut unrecognized_drivers: usize = 0;
                match fact.driver {
                    Some(d) => {
                        drivers.push(d);
                    },
                    None => {
                        unrecognized_drivers = 1;
                    },
                }
                summaries.push(
                    AdapterCnt {
                        count: 1,
                        name: fact.name.clone(),
                        drivers,
                        vulkan: fact.vulkan,
                        gl: fact.gl,
                        unrecognized_drivers,
                    },
                );
                proof {
                    assert(!names.contains(fact@.name)) by {
                        if names.contains(fact@.name) {
                            let g = choose|g: int| 0 <= g < names.len() && names[g] == fact@.name;
                            assert(before[g].name@ == names[g]);
                        }
                    }
                    assert(names_in_order(now) == names.push(fact@.name));
                    lemma_absent_name(seen, fact@.name);
                    let last = before.len() as int;
                    assert(summaries@[last]@.drivers =~= counted_in(
                        no_adapters(fact@.name),
                        fact@,
                    ).drivers);
                    assert forall|h: int| 0 <= h < summaries@.len() implies summary_views(
                        summaries@,
                    )[h] == summaries_of(now)[h] by {
                        if h < last {
                            assert(summary_views(before)[h] == summaries_of(seen)[h]);
                            assert(summaries@[h] == before[h]);
                            assert(before[h].name@ == names[h]);
                        }
                    }
                }
            },
        }
        i = i + 1;
    }
    assert(all.take(i as int) =~= all);
    summaries
}

/// A summary carries the name that it was made for.
proof fn lemma_summary_name(facts: Seq<Facts>, name: Seq<char>)
    ensures
        summary_for(facts, name).name == name,
    decreases facts.len(),
{
    if facts.len() > 0 {
        lemma_summary_name(facts.drop_last(), name);
    }
}

/// Appends one remark to an entry that is being written.
fn push_remark(
    out: &mut String,
    remark: &str,
    first: bool,
    Ghost(open): Ghost<Seq<char>>,
    Ghost(parts): Ghost<Seq<Seq<char>>>,
)
    requires
        old(out)@ == open + comma_list(parts),
        first == (parts.len() == 0),
        forall|k: int| 0 <= k < parts.len() ==> (#[trigger] parts[k]).len() > 0,
        remark@.len() > 0,
    ensures
        final(out)@ == open + comma_list(parts.push(remark@)),
{
    proof {
        assert(parts.push(remark@).drop_last() =~= parts);
        lemma_comma_list_empty(parts);
    }
    if !first {
        out.append(", ");
    }
    out.append(remark);
    assert(out@ =~= open + comma_list(parts.push(remark@)));
}

/// A list of remarks that are not empty is empty only where there is none.
proof fn lemma_comma_list_empty(parts: Seq<Seq<char>>)
    requires
        forall|k: int| 0 <= k < parts.len() ==> (#[trigger] parts[k]).len() > 0,
    ensures
        parts.len() > 0 ==> comma_list(parts).len() > 0,
    decreases parts.len(),
{
    if parts.len() > 1 {
        assert(parts.last().len() > 0);
    } else if parts.len() == 1 {
        assert(parts[0].len() > 0);
    }
}

/// The text of a driver's name.
fn driver_text(d: Driver) -> (name: &'static str)
    ensures
        name@ == driver_name(d),
        name@.len() > 0,
{
    proof {
        reveal_strlit("AMDgpu");
        reveal_strlit("Mesa");
    }
    match d {
        Driver::AMDgpu => "AMDgpu",
        Driver::Mesa => "Mesa",
    }
}

/// Writes the entry of a summary.
pub fn describe(summary: &AdapterCnt) -> (entry: String)
    ensures
        entry@ == description(summary@),
{
    let mut out = String::from_str(summary.name.as_str());
    out.append(" (");
    let ghost open = out@;
    let ghost mut parts: Seq<Seq<char>> = Seq::empty();
    let mut first = true;
    proof {
        reveal_strlit("Vulkan/OpenGL");
        reveal_strlit("OpenGL");
        reveal_strlit("Vulkan");
        reveal_strlit("1 unrecognized driver");
        reveal_strlit(" unrecognized drivers");
        assert(out@ =~= open + comma_list(parts));
    }
    if summary.gl && summary.vulkan {
        push_remark(&mut out, "Vulkan/OpenGL", first, Ghost(open), Ghost(parts));
        proof {
            parts = parts.push("Vulkan/OpenGL"@);
        }
        first = false;
    } else if summary.gl {
        push_remark(&mut out, "OpenGL", first, Ghost(open), Ghost(parts));
        proof {
            parts = parts.push("OpenGL"@);
        }
        first = false;
    } else if summary.vulkan {
        push_remark(&mut out, "Vulkan", first, Ghost(open), Ghost(parts));
        proof {
            parts = parts.push("Vulkan"@);
        }
        first = false;
    }
    assert(parts =~= interfaces(summary@));
    let ghost named = summary@.drivers.map_values(|d: Driver| driver_name(d));
    let mut k: usize = 0;
    while k < summary.drivers.len()
        invariant
            k <= summary.drivers@.len(),
            named == summary@.drivers.map_values(|d: Driver| driver_name(d)),
            parts == interfaces(summary@) + named.take(k as int),
            forall|j: int| 0 <= j < parts.len() ==> (#[trigger] parts[j]).len() > 0,
            out@ == open + comma_list(parts),
            first == (parts.len() == 0),
        decreases summary.drivers@.len() - k,
    {
        let name = driver_text(summary.drivers[k]);
        push_remark(&mut out, name, first, Ghost(open), Ghost(parts));
        proof {
            parts = parts.push(name@);
            assert(named.take(k + 1) =~= named.take(k as int).push(name@));
            assert(parts =~= interfaces(summary@) + named.take(k + 1));
        }
        first = false;
        k = k + 1;
    }
    assert(named.take(k as int) =~= named);
    if summary.unrecognized_drivers > 1 {
        let mut note = String::new();
        push_decimal(&mut note, summary.unrecognized_drivers as u64);
        note.append(" unrecognized drivers");
        assert(note@ =~= decimal(summary.unrecognized_drivers as nat) + " unrecognized drivers"@);
        push_remark(&mut out, note.as_str(), first, Ghost(open), Ghost(parts));
        proof {
            parts = parts.push(note@);
        }
    } else if summary.unrecognized_drivers == 1 {
        push_remark(&mut out, "1 unrecognized driver", first, Ghost(open), Ghost(parts));
        proof {
            parts = parts.push("1 unrecognized driver"@);
        }
    }
    assert(parts =~= remarks(summary@));
    out.append(")");
    assert(out@ =~= description(summary@));
    out
}

/// The adapters line for adapters whose facts are known.
pub fn list_gpus(facts: &Vec<AdapterFacts>) -> (text: String)
    ensures
        text@ == tree_list(descriptions(summaries_of(facts_views(facts@))), NO_GPUS@),
{
    let summaries = summarize(facts);
    let mut gpus: Vec<String> = Vec::new();
    let mut g: usize = 0;
    while g < summaries.len()
        invariant
            g <= summaries@.len(),
            gpus@.len() == g,
            forall|h: int| 0 <= h < g ==> (#[trigger] gpus@[h])@ == description(summaries@[h]@),
        decreases summaries@.len() - g,
    {
        gpus.push(describe(&summaries[g]));
        g = g + 1;
    }
    assert(Seq::new(gpus@.len(), |i: int| gpus@[i]@) =~= descriptions(
        summary_views(summaries@),
    ));
    format_tree_list(&gpus, NO_GPUS)
}

/// The adapters line of the report.
pub fn get_gpus(adapters: &Vec<Adapter>) -> (text: String)
    ensures
        text@ == tree_list(descriptions(summaries_of(adapter_facts(adapters@))), NO_GPUS@),
{
    let mut facts: Vec<AdapterFacts> = Vec::new();
    let mut i: usize = 0;
    while i < adapters.len()
        invariant
            i <= adapters@.len(),
            facts@.len() == i,
            forall|k: int| 0 <= k < i ==> (#[trigger] facts@[k])@ == adapters@[k].facts(),
        decreases adapters@.len() - i,
    {
        facts.push(classify(&adapters[i]));
        i = i + 1;
    }
    assert(facts_views(facts@) =~= adapter_facts(adapters@));
    list_gpus(&facts)
}

} // verus!
