use vstd::prelude::*;
use vstd::string::*;

use crate::text::{chars_of, contains, contains_exec};

verus! {

/// What `str::to_lowercase` makes of a text.
pub uninterp spec fn lower_of(s: Seq<char>) -> Seq<char>;

/// Relies on `str::to_lowercase`: the lowercase mapping of each character,
/// which depends on the text alone.
#[verifier::external_body]
fn lowercase(s: &str) -> (r: String)
    ensures
        r@ == lower_of(s@),
{
    s.to_lowercase()
}

/// The word by which the provisioning tool announces an interactive prompt.
pub open spec fn prompt_word() -> Seq<char> {
    seq!['s', 'u', 'r', 'v', 'e', 'y']
}

/// Whether a line of the tool's output asks for an answer that nobody will
/// give: it holds the prompt word in any case.
pub open spec fn asks_for_input(line: Seq<char>) -> bool {
    contains(lower_of(line), prompt_word())
}

/// How the reader of the tool's output treats one line.
#[derive(Clone, Copy, Debug, PartialEq, Eq, Structural)]
pub enum LineVerdict {
    /// An ordinary line: keep it and read on.
    Keep,
    /// The empty read that marks the end of the output.
    EndOfOutput,
    /// A prompt: stop the tool and keep what came before.
    Interrupt,
}

pub open spec fn verdict_of(line: Seq<char>) -> LineVerdict {
    if line.len() == 0 {
        LineVerdict::EndOfOutput
    } else if asks_for_input(line) {
        LineVerdict::Interrupt
    } else {
        LineVerdict::Keep
    }
}

/// Whether an already lowercased line holds the prompt word.
pub fn mentions_prompt_word(lowered: &str) -> (r: bool)
    ensures
        r == contains(lowered@, prompt_word()),
{
    let t = chars_of(lowered);
    let mut w: Vec<char> = Vec::new();
    w.push('s');
    w.push('u');
    w.push('r');
    w.push('v');
    w.push('e');
    w.push('y');
    assert(w@ =~= prompt_word());
    contains_exec(&t, &w)
}

/// Whether a line of the tool's output is an interactive prompt.
pub fn is_interactive_prompt(line: &str) -> (r: bool)
    ensures
        r == asks_for_input(line@),
{
    let lowered = lowercase(line);
    mentions_prompt_word(lowered.as_str())
}

/// Classifies one line as read from the tool (an empty read is the end).
pub fn classify_line(line: &str) -> (r: LineVerdict)
    ensures
        r == verdict_of(line@),
{
    if line.is_empty() {
        LineVerdict::EndOfOutput
    } else if is_interactive_prompt(line) {
        LineVerdict::Interrupt
    } else {
        LineVerdict::Keep
    }
}

/// The output of one run of the provisioning tool, gathered line by line.
pub struct OutputCollector {
    pub lines: String,
}

impl OutputCollector {
    pub fn new() -> (r: OutputCollector)
        ensures
            r.lines@ == Seq::<char>::empty(),
    {
        OutputCollector { lines: String::new() }
    }

    /// Takes the next line read from the tool and says how it was treated: a
    /// kept line is appended; at the end of the output or at a prompt (where
    /// the reader stops the tool) the text gathered so far stays as it is.
    pub fn feed(&mut self, line: &str) -> (v: LineVerdict)
        ensures
            v == verdict_of(line@),
            v == LineVerdict::Keep ==> final(self).lines@ == old(self).lines@ + line@,
            v != LineVerdict::Keep ==> final(self).lines@ == old(self).lines@,
    {
        let v = classify_line(line);
        match v {
            LineVerdict::Keep => {
                self.lines.append(line);
            },
            _ => {},
        }
        v
    }
}

/// The tool's arguments that list the live instances.
pub fn list_command() -> (r: Vec<String>)
    ensures
        r@.len() == 1,
        r@[0]@ == seq!['l', 'i', 's', 't'],
{
    let mut r: Vec<String> = Vec::new();
    r.push(String::from_str("list"));
    proof {
        reveal_strlit("list");
        assert("list"@ =~= seq!['l', 'i', 's', 't']);
    }
    r
}

/// The tool's arguments that deploy the flow described at `flow_yml_path`.
pub fn start_instance(flow_yml_path: &str) -> (r: Vec<String>)
    ensures
        r@.len() == 2,
        r@[0]@ == seq!['d', 'e', 'p', 'l', 'o', 'y'],
        r@[1]@ == flow_yml_path@,
{
    let mut r: Vec<String> = Vec::new();
    r.push(String::from_str("deploy"));
    r.push(flow_yml_path.to_owned());
    proof {
        reveal_strlit("deploy");
        assert("deploy"@ =~= seq!['d', 'e', 'p', 'l', 'o', 'y']);
    }
    r
}

} // verus!
