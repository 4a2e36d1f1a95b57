//! Commands that the daemon runs.

use vstd::prelude::*;
use vstd::string::*;

verus! {

/// A command: the program, its arguments, and the variables that are set and
/// taken away for it.
pub struct CommandLine {
    pub program: String,
    pub args: Vec<String>,
    pub env: Vec<(String, String)>,
    pub cleared: Vec<String>,
}

/// A command, by the views of its parts.
#[verifier::ext_equal]
pub struct CommandView {
    pub program: Seq<char>,
    pub args: Seq<Seq<char>>,
    pub env: Seq<(Seq<char>, Seq<char>)>,
    pub cleared: Seq<Seq<char>>,
}

/// Variables, by the views of their names and values.
pub open spec fn env_views(env: Seq<(String, String)>) -> Seq<(Seq<char>, Seq<char>)> {
    env.map_values(|e: (String, String)| (e.0@, e.1@))
}

impl View for CommandLine {
    type V = CommandView;

    open spec fn view(&self) -> CommandView {
        CommandView {
            program: self.program@,
            args: crate::text::texts(self.args@),
            env: env_views(self.env@),
            cleared: crate::text::texts(self.cleared@),
        }
    }
}

/// A list of one text.
pub fn args1(a: &str) -> (r: Vec<String>)
    ensures
        crate::text::texts(r@) == seq![a@],
{
    let mut out: Vec<String> = Vec::new();
    out.push(a.to_owned());
    assert(crate::text::texts(out@) =~= seq![a@]);
    out
}

/// A list of two texts.
pub fn args2(a: &str, b: &str) -> (r: Vec<String>)
    ensures
        crate::text::texts(r@) == seq![a@, b@],
{
    let mut out: Vec<String> = Vec::new();
    out.push(a.to_owned());
    out.push(b.to_owned());
    assert(crate::text::texts(out@) =~= seq![a@, b@]);
    out
}

/// A list of three texts.
pub fn args3(a: &str, b: &str, c: &str) -> (r: Vec<String>)
    ensures
        crate::text::texts(r@) == seq![a@, b@, c@],
{
    let mut out: Vec<String> = Vec::new();
    out.push(a.to_owned());
    out.push(b.to_owned());
    out.push(c.to_owned());
    assert(crate::text::texts(out@) =~= seq![a@, b@, c@]);
    out
}

} // verus!
