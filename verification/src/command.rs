//! What a cluster command left behind when it finished.

use vstd::prelude::*;

use crate::text;

verus! {

/// A command that ran to its end.
pub struct Finished {
    pub success: bool,
    /// How it exited, in words.
    pub status: String,
    pub stdout: Vec<u8>,
    pub stderr: Vec<u8>,
}

/// What to say about a command that failed.
pub open spec fn complaint(
    name: Seq<char>,
    status: Seq<char>,
    stderr: Seq<char>,
) -> Seq<char> {
    name + " exited with "@ + status + ": "@ + text::trimmed(stderr)
}

/// What to say about a command that failed, given what it said itself.
pub fn complain(name: &str, status: &str, stderr: &str) -> (r: String)
    ensures
        r@ == complaint(name@, status@, stderr@),
{
    let mut r = name.to_string();
    r.append(" exited with ");
    r.append(status);
    r.append(": ");
    r.append(text::trim(stderr));
    r
}

impl Finished {
    /// What it printed, when it succeeded, and otherwise what to say about it.
    pub open spec fn outcome(&self, name: Seq<char>) -> Result<Seq<char>, Seq<char>> {
        if self.success {
            Ok(text::utf8_lossy(self.stdout@))
        } else {
            Err(complaint(name, self.status@, text::utf8_lossy(self.stderr@)))
        }
    }

    /// What it printed, or why there is nothing to read.
    pub fn output(&self, name: &str) -> (r: Result<String, String>)
        ensures
            match r {
                Ok(stdout) => self.outcome(name@) == Ok::<Seq<char>, Seq<char>>(stdout@),
                Err(said) => self.outcome(name@) == Err::<Seq<char>, Seq<char>>(said@),
            },
    {
        if self.success {
            Ok(text::from_utf8_lossy(self.stdout.as_slice()))
        } else {
            let stderr = text::from_utf8_lossy(self.stderr.as_slice());
            Err(complain(name, self.status.as_str(), stderr.as_str()))
        }
    }
}

/// What is said of a command that failed starts with its name, goes on with how
/// it exited and ends with what it said itself, without the white space around.
pub proof fn lemma_a_complaint_tells_all(name: Seq<char>, status: Seq<char>, stderr: Seq<char>)
    ensures
        ({
            let said = complaint(name, status, stderr);
            let own = text::trimmed(stderr);
            let middle = name + " exited with "@;
            &&& text::begins(said, middle + status)
            &&& said.len() == name.len() + 13 + status.len() + 2 + own.len()
            &&& said.skip(said.len() - own.len()) == own
        }),
{
    reveal_strlit(" exited with ");
    reveal_strlit(": ");
    let said = complaint(name, status, stderr);
    let own = text::trimmed(stderr);
    let front = name + " exited with "@ + status;
    assert(said == front + ": "@ + own);
    assert(said.take(front.len() as int) =~= front);
    assert(said.skip(said.len() - own.len()) =~= own);
}

impl Finished {
    /// A command that succeeded leaves what it printed, and one that did not
    /// leaves a complaint that has what it said of itself and nothing that it
    /// printed.
    pub proof fn lemma_what_a_command_leaves(&self, name: Seq<char>)
        ensures
            self.outcome(name) is Ok <==> self.success,
            self.success ==> self.outcome(name) == Ok::<Seq<char>, Seq<char>>(
                text::utf8_lossy(self.stdout@),
            ),
            self.outcome(name) matches Err(said) ==> said == complaint(
                name,
                self.status@,
                text::utf8_lossy(self.stderr@),
            ),
    {
    }
}

} // verus!
