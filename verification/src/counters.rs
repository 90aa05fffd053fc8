//! The job's running tallies: pictures processed and pictures that failed.
use vstd::prelude::*;

verus! {

/// How many pictures of the current job were processed, and how many failed.
#[derive(PartialEq, Eq, Structural, Copy, Clone, Debug)]
pub struct Counters {
    pub processed: u32,
    pub failed: u32,
}

/// The tallies after the command `cmd`, and the number that the command answers:
/// `RESET` clears both and answers 0; `COUNT` and `FAILS` add one to their tally
/// and answer it; `GET` and every other command answer the processed tally.
pub open spec fn count_step(c: Counters, cmd: Seq<char>) -> (Counters, u32) {
    if cmd == "RESET"@ {
        (Counters { processed: 0, failed: 0 }, 0)
    } else if cmd == "COUNT"@ {
        let n = (c.processed + 1) as u32;
        (Counters { processed: n, ..c }, n)
    } else if cmd == "FAILS"@ {
        let n = (c.failed + 1) as u32;
        (Counters { failed: n, ..c }, n)
    } else {
        (c, c.processed)
    }
}

/// The command does not push a tally past `u32::MAX`.
pub open spec fn count_fits(c: Counters, cmd: Seq<char>) -> bool {
    &&& cmd == "COUNT"@ ==> c.processed < u32::MAX
    &&& cmd == "FAILS"@ ==> c.failed < u32::MAX
}

/// The four command words differ from one another.
pub(crate) proof fn lemma_words_distinct()
    ensures
        "RESET"@ != "COUNT"@,
        "RESET"@ != "FAILS"@,
        "COUNT"@ != "FAILS"@,
        "GET"@ != "RESET"@,
        "GET"@ != "COUNT"@,
        "GET"@ != "FAILS"@,
{
    reveal_strlit("RESET");
    reveal_strlit("COUNT");
    reveal_strlit("FAILS");
    reveal_strlit("GET");
    assert("RESET"@[0] != "COUNT"@[0]);
    assert("RESET"@[0] != "FAILS"@[0]);
    assert("COUNT"@[0] != "FAILS"@[0]);
    assert("GET"@.len() != "RESET"@.len());
    assert("GET"@.len() != "COUNT"@.len());
    assert("GET"@.len() != "FAILS"@.len());
}

impl Counters {
    /// Both tallies at zero.
    pub fn new() -> (r: Counters)
        ensures
            r == (Counters { processed: 0, failed: 0 }),
    {
        Counters { processed: 0, failed: 0 }
    }

    /// Runs the tally command `cmd` (see `count_step`).
    pub fn count(&mut self, cmd: &str) -> (r: u32)
        requires
            count_fits(*old(self), cmd@),
        ensures
            (*final(self), r) == count_step(*old(self), cmd@),
    {
        proof {
            lemma_words_distinct();
        }
        if crate::text::str_eq(cmd, "RESET") {
            self.processed = 0;
            self.failed = 0;
            0
        } else if crate::text::str_eq(cmd, "COUNT") {
            self.processed = self.processed + 1;
            self.processed
        } else if crate::text::str_eq(cmd, "FAILS") {
            self.failed = self.failed + 1;
            self.failed
        } else {
            self.processed
        }
    }
}

/// The number of pictures processed so far.
pub fn get_count(c: &Counters) -> (r: u32)
    ensures
        r == c.processed,
{
    proof {
        lemma_words_distinct();
    }
    let mut probe = *c;
    probe.count("GET")
}

/// Clears both tallies; answers 0.
pub fn reset_count(c: &mut Counters) -> (r: u32)
    ensures
        r == 0,
        *final(c) == (Counters { processed: 0, failed: 0 }),
{
    proof {
        lemma_words_distinct();
    }
    c.count("RESET")
}

/// After a reset, the processed tally reads 0.
pub proof fn law_get_after_reset(c: Counters)
    ensures
        count_step(count_step(c, "RESET"@).0, "GET"@) == (Counters { processed: 0, failed: 0 }, 0u32),
{
    lemma_words_distinct();
}

/// `COUNT` answers one more than `GET` answered before it, and the next `GET`
/// answers the same.
pub proof fn law_count_then_get(c: Counters)
    requires
        c.processed < u32::MAX,
    ensures
        count_step(c, "COUNT"@).1 == count_step(c, "GET"@).1 + 1,
        count_step(count_step(c, "COUNT"@).0, "GET"@).1 == count_step(c, "COUNT"@).1,
{
    lemma_words_distinct();
}

/// The tallies after the commands `cmds`, run one after the other from `c`,
/// and the answers in order.
pub open spec fn count_run(c: Counters, cmds: Seq<Seq<char>>) -> (Counters, Seq<u32>)
    decreases cmds.len(),
{
    if cmds.len() == 0 {
        (c, Seq::empty())
    } else {
        let before = count_run(c, cmds.drop_last());
        let step = count_step(before.0, cmds.last());
        (step.0, before.1.push(step.1))
    }
}

/// `n` commands `COUNT`, one after the other, raise the processed tally by
/// exactly `n` and answer `c + 1`, ..., `c + n` in turn: no count is lost.
pub proof fn law_counts_add_up(c: Counters, n: nat)
    requires
        c.processed + n <= u32::MAX,
    ensures
        ({
            let (after, answers) = count_run(c, Seq::new(n, |i: int| "COUNT"@));
            &&& after.processed == c.processed + n
            &&& after.failed == c.failed
            &&& answers.len() == n
            &&& forall|i: int| 0 <= i < n ==> answers[i] == c.processed + i + 1
        }),
    decreases n,
{
    lemma_words_distinct();
    let cmds = Seq::new(n, |i: int| "COUNT"@);
    if n > 0 {
        let shorter = Seq::new((n - 1) as nat, |i: int| "COUNT"@);
        assert(cmds.drop_last() =~= shorter);
        law_counts_add_up(c, (n - 1) as nat);
        assert(cmds.last() == "COUNT"@);
    }
}

/// `FAILS` raises the failed tally by one and answers it, leaving the
/// processed tally; `RESET` clears both and answers 0; any other word than the
/// four answers the processed tally and changes nothing.
pub proof fn law_fails_and_others(c: Counters, cmd: Seq<char>)
    requires
        c.failed < u32::MAX,
    ensures
        count_step(c, "FAILS"@) == (Counters { processed: c.processed, failed: (c.failed + 1) as u32 }, (c.failed + 1) as u32),
        count_step(c, "RESET"@) == (Counters { processed: 0, failed: 0 }, 0u32),
        cmd != "RESET"@ && cmd != "COUNT"@ && cmd != "FAILS"@ ==> count_step(c, cmd) == (c, c.processed),
{
    lemma_words_distinct();
}

/// `GET` changes nothing.
pub proof fn law_get_keeps_tallies(c: Counters)
    ensures
        count_step(c, "GET"@).0 == c,
{
    lemma_words_distinct();
}

} // verus!
