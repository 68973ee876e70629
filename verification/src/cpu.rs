//! The processors line: processors of one brand are reported once, with
//! their number, their mean clock and, on request, their mean load.

use vstd::prelude::*;
use vstd::string::StringExecFns;
use crate::pattern::{regex_replace_all, replace_all};
use crate::text::{clean, cleaned, decimal, format_tree_list, push_decimal, tree_list};

verus! {

/// What a brand name says beyond the model: trademark signs, the words for a
/// processor and the number of cores.
pub const NOISE_PATTERN: &'static str =
    "(?i)(\\{tm\\}|\\{r\\}|CPU|Processor|Dual-Core|Quad-Core|Six-Core|Eight-Core|\\d+-core)";

/// What the report says where there is no processor.
pub const NO_CPUS: &'static str = "None... found?";

/// The mean load of the processors of one brand and its standard error, in
/// per cent, each written with one decimal place.
pub struct Usage {
    pub mean: String,
    pub error: String,
}

/// The processors of one brand.
pub struct CpuCnt {
    pub count: usize,
    pub name: String,
    /// The mean clock in gigahertz, written with one decimal place.
    pub frequency: String,
    /// The mean load, where it was asked for.
    pub usage: Option<Usage>,
}

/// The entry of one brand, given its name as the report gives it: name,
/// number in brackets, clock and, where it is there, load.
pub open spec fn entry(
    short_name: Seq<char>,
    count: nat,
    frequency: Seq<char>,
    usage: Option<(Seq<char>, Seq<char>)>,
) -> Seq<char> {
    let head = short_name + " ("@ + decimal(count) + ") @ "@ + frequency + "GHz"@;
    match usage {
        Some((mean, error)) => head + " ("@ + mean + "±"@ + error + "%)"@,
        None => head,
    }
}

impl CpuCnt {
    /// The load as a pair of texts.
    pub open spec fn usage_texts(self) -> Option<(Seq<char>, Seq<char>)> {
        match self.usage {
            Some(u) => Some((u.mean@, u.error@)),
            None => None,
        }
    }

    /// The entry of this brand.
    pub open spec fn entry(self) -> Seq<char> {
        entry(
            cleaned(regex_replace_all(NOISE_PATTERN@, self.name@, ""@), self.name@),
            self.count as nat,
            self.frequency@,
            self.usage_texts(),
        )
    }
}

/// The entries of a list of brands.
pub open spec fn entries(cpus: Seq<CpuCnt>) -> Seq<Seq<char>> {
    Seq::new(cpus.len(), |i: int| cpus[i].entry())
}

/// The name of a brand as the report gives it.
pub fn short_name(name: &str) -> (short: String)
    ensures
        short@ == cleaned(regex_replace_all(NOISE_PATTERN@, name@, ""@), name@),
{
    match replace_all(NOISE_PATTERN, name, "") {
        Some(reduced) => clean(Some(reduced.as_str()), name),
        None => clean(None, name),
    }
}

/// Writes the entry of one brand, given its name as the report gives it.
pub fn write_entry(short_name: &str, count: usize, frequency: &str, usage: Option<&Usage>) -> (line:
    String)
    ensures
        line@ == entry(
            short_name@,
            count as nat,
            frequency@,
            match usage {
                Some(u) => Some((u.mean@, u.error@)),
                None => None,
            },
        ),
{
    let mut line = String::from_str(short_name);
    line.append(" (");
    push_decimal(&mut line, count as u64);
    line.append(") @ ");
    line.append(frequency);
    line.append("GHz");
    match usage {
        Some(u) => {
            line.append(" (");
            line.append(u.mean.as_str());
            line.append("±");
            line.append(u.error.as_str());
            line.append("%)");
        },
        None => {},
    }
    line
}

/// The processors line of the report.
pub fn get_cpus(cpus: &Vec<CpuCnt>) -> (text: String)
    ensures
        text@ == tree_list(entries(cpus@), NO_CPUS@),
{
    let mut lines: Vec<String> = Vec::new();
    let mut i: usize = 0;
    while i < cpus.len()
        invariant
            i <= cpus@.len(),
            lines@.len() == i,
            forall|k: int| 0 <= k < i ==> (#[trigger] lines@[k])@ == cpus@[k].entry(),
        decreases cpus@.len() - i,
    {
        let cpu = &cpus[i];
        let short = short_name(cpu.name.as_str());
        let usage: Option<&Usage> = match &cpu.usage {
            Some(u) => Some(u),
            None => None,
        };
        lines.push(write_entry(short.as_str(), cpu.count, cpu.frequency.as_str(), usage));
        i = i + 1;
    }
    assert(Seq::new(lines@.len(), |k: int| lines@[k]@) =~= entries(cpus@));
    format_tree_list(&lines, NO_CPUS)
}

} // verus!
