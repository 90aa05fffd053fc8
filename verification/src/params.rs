//! The parameters of a resize job, and how a job's files are shared out among
//! the workers.
use vstd::prelude::*;

verus! {

/// The parameters of a resize job, as the user set them.
#[derive(Copy, Clone)]
pub struct ResizeParameter {
    pub sourcefolder: &'static str,
    pub exportfolder: &'static str,
    pub format: &'static str,
    pub mode: &'static str,
    pub width: u32,
    pub height: u32,
    pub maxsize: u32,
    pub percentage: u32,
    pub quality: i32,
    pub donotenlager: bool,
}

/// A share of a job: some files and the parameters they are resized with.
pub struct Works {
    pub files: Vec<String>,
    pub paras: ResizeParameter,
}

/// The four ways a picture can be resized.
#[derive(PartialEq, Eq, Structural, Copy, Clone, Debug)]
pub enum ResizeMode {
    ByWidth,
    ByHeight,
    ByMaxSize,
    Percentage,
}

/// The mode that a mode name stands for.
pub open spec fn spec_mode(name: Seq<char>) -> Option<ResizeMode> {
    if name == "ByWidth"@ {
        Some(ResizeMode::ByWidth)
    } else if name == "ByHeight"@ {
        Some(ResizeMode::ByHeight)
    } else if name == "ByMaxSize"@ {
        Some(ResizeMode::ByMaxSize)
    } else if name == "Percentage"@ {
        Some(ResizeMode::Percentage)
    } else {
        None
    }
}

/// The mode that a mode name stands for, or `None` for a name that is none of the four.
pub fn parse_mode(name: &str) -> (r: Option<ResizeMode>)
    ensures
        r == spec_mode(name@),
{
    proof {
        reveal_strlit("ByWidth");
        reveal_strlit("ByHeight");
        reveal_strlit("ByMaxSize");
        reveal_strlit("Percentage");
    }
    if crate::text::str_eq(name, "ByWidth") {
        Some(ResizeMode::ByWidth)
    } else if crate::text::str_eq(name, "ByHeight") {
        Some(ResizeMode::ByHeight)
    } else if crate::text::str_eq(name, "ByMaxSize") {
        Some(ResizeMode::ByMaxSize)
    } else if crate::text::str_eq(name, "Percentage") {
        Some(ResizeMode::Percentage)
    } else {
        None
    }
}

/// `Box::leak` of a copy of `s`: the same characters, kept for the rest of the run.
#[verifier::external_body]
pub fn staticstr(s: &str) -> (r: &'static str)
    ensures
        r@ == s@,
{
    Box::leak(s.to_string().into_boxed_str())
}

// ---------------------------------------------------------------------------
// Sharing the files out
// ---------------------------------------------------------------------------

/// The number of shares and the share size that a job of `len` files gets when
/// `part` workers are on offer: the share size is `len / part + 1`, and while
/// there are more shares than files in a share, the shares are cut down to the
/// share size and the share size is worked out again.
pub open spec fn settle(len: nat, part: nat) -> (nat, nat)
    decreases part,
{
    if part == 0 {
        (0, 0)
    } else {
        let step = len / part + 1;
        if part > step {
            settle(len, step)
        } else {
            (part, step)
        }
    }
}

/// How a job is shared out, for `part` CPUs offered (at least one): when
/// there are no more CPUs than the share size `len / part + 1`, every CPU gets
/// a share of that size; otherwise the number of shares is cut to the share
/// size and the rule applies again. The result always has at least one share,
/// no more shares than CPUs, no more shares than files in a share, and shares
/// that together hold at least `len` files while all but the last are full.
pub proof fn law_settle(len: nat, part: nat)
    requires
        part >= 1,
    ensures
        part <= len / part + 1 ==> settle(len, part) == (part, len / part + 1),
        part > len / part + 1 ==> settle(len, part) == settle(len, len / part + 1),
        ({
            let (p, s) = settle(len, part);
            &&& 1 <= p <= part
            &&& s == len / p + 1
            &&& p <= s
            &&& s * (p - 1) <= len
            &&& s * p > len
        }),
{
    lemma_settle(len, part);
}

/// The `k`-th share of `files` when shares hold `step` files.
pub open spec fn share(files: Seq<String>, step: nat, k: nat) -> Seq<String> {
    let a = step * k;
    let b = if a + step > files.len() {
        files.len() as int
    } else {
        (a + step) as int
    };
    files.subrange(a as int, b)
}

/// `ws` are the shares of `files` for `cpus` workers: as many as `settle`
/// gives, the `k`-th being `share(files, step, k)`, each with the parameters.
pub open spec fn shares_for(ws: Seq<Works>, files: Seq<String>, paras: ResizeParameter, cpus: nat) -> bool {
    let (part, step) = settle(files.len(), cpus);
    &&& ws.len() == part
    &&& forall|k: int|
        0 <= k < ws.len() ==> (#[trigger] ws[k]).paras == paras && ws[k].files@ == share(
            files,
            step,
            k as nat,
        )
}

/// The files of the shares, one share after the other.
pub open spec fn flatten_files(ws: Seq<Works>) -> Seq<String>
    decreases ws.len(),
{
    if ws.len() == 0 {
        Seq::empty()
    } else {
        flatten_files(ws.drop_last()) + ws.last().files@
    }
}

proof fn lemma_settle(len: nat, part: nat)
    requires
        part >= 1,
    ensures
        ({
            let (p, s) = settle(len, part);
            &&& 1 <= p <= part
            &&& s == len / p + 1
            &&& p <= s
            &&& s * (p - 1) <= len
            &&& s * p > len
        }),
    decreases part,
{
    let step = len / part + 1;
    if part > step {
        lemma_settle(len, step);
    } else {
        let q = len / part;
        let r = len % part;
        assert(len == q * part + r) by (nonlinear_arith)
            requires
                part >= 1,
                q == len / part,
                r == len % part,
        ;
        assert(step * (part - 1) <= len) by (nonlinear_arith)
            requires
                part >= 1,
                step == q + 1,
                part <= step,
                len == q * part + r,
                r >= 0,
        ;
        assert(step * part > len) by (nonlinear_arith)
            requires
                part >= 1,
                step == q + 1,
                len == q * part + r,
                r < part,
        ;
    }
}

/// Shares the files out among at most `cpus` workers, as the job launcher does:
/// the shares come one after the other and together hold every file, each
/// holds at most the share size, and each carries the job's parameters.
pub fn partition_works(files: &Vec<String>, paras: ResizeParameter, cpus: usize) -> (r: Vec<Works>)
    requires
        cpus >= 1,
        files.len() < usize::MAX,
    ensures
        shares_for(r@, files@, paras, cpus as nat),
        r.len() == settle(files.len() as nat, cpus as nat).0,
        cpus <= (files.len() as int) / (cpus as int) + 1 ==> r.len() == cpus,
        1 <= r.len() <= cpus,
        forall|k: int|
            0 <= k < r.len() ==> (#[trigger] r[k]).paras == paras && r[k].files@ == share(
                files@,
                settle(files.len() as nat, cpus as nat).1,
                k as nat,
            ),
        forall|k: int|
            0 <= k < r.len() ==> (#[trigger] r[k]).files.len() <= settle(
                files.len() as nat,
                cpus as nat,
            ).1,
        flatten_files(r@) == files@,
{
    let len = files.len();
    let mut part: usize = cpus;
    let mut step: usize = len / part + 1;
    while part > step
        invariant
            1 <= part <= cpus,
            len == files.len(),
            len < usize::MAX,
            step == len / part + 1,
            settle(len as nat, part as nat) == settle(len as nat, cpus as nat),
        decreases part,
    {
        part = step;
        step = len / part + 1;
    }
    proof {
        lemma_settle(len as nat, cpus as nat);
    }
    let ghost settled = settle(len as nat, cpus as nat);
    assert(settled == (part as nat, step as nat));
    let mut works: Vec<Works> = Vec::new();
    let mut i: usize = 0;
    while i < part
        invariant
            settled == (part as nat, step as nat),
            step * (part - 1) <= len,
            step * part > len,
            1 <= part <= step,
            part <= cpus,
            len == files.len(),
            i <= part,
            works.len() == i,
            forall|k: int|
                0 <= k < i ==> (#[trigger] works[k]).paras == paras && works[k].files@ == share(
                    files@,
                    step as nat,
                    k as nat,
                ),
            flatten_files(works@) == files@.subrange(
                0,
                if step * i > len {
                    len as int
                } else {
                    step * i
                },
            ),
        decreases part - i,
    {
        assert(step * i <= step * (part - 1)) by (nonlinear_arith)
            requires
                i < part,
                step >= 1,
        ;
        let a: usize = step * i;
        let b: usize = if step > len - a {
            len
        } else {
            a + step
        };
        let chunk = copy_range(files, a, b);
        let ghost old_works = works@;
        works.push(Works { files: chunk, paras: paras });
        proof {
            assert(works@.drop_last() =~= old_works);
            assert(step * (i + 1) == a + step) by (nonlinear_arith)
                requires
                    a == step * i,
            ;
            assert(files@.subrange(0, a as int) + files@.subrange(a as int, b as int)
                =~= files@.subrange(0, b as int));
            assert forall|k: int| 0 <= k < i + 1 implies (#[trigger] works[k]).paras == paras
                && works[k].files@ == share(files@, step as nat, k as nat) by {
                if k < i {
                    assert(works[k] == old_works[k]);
                }
            }
        }
        i = i + 1;
    }
    assert(files@.subrange(0, len as int) =~= files@);
    proof {
        assert forall|k: int| 0 <= k < works.len() implies (#[trigger] works[k]).files.len()
            <= step by {
            assert(works[k].files@ == share(files@, step as nat, k as nat));
            assert(step * k <= step * (part - 1)) by (nonlinear_arith)
                requires
                    k < part,
                    step >= 1,
            ;
            assert(works[k].files@.len() <= step);
        }
    }
    works
}

/// A copy of `files[a..b]`.
fn copy_range(files: &Vec<String>, a: usize, b: usize) -> (r: Vec<String>)
    requires
        a <= b <= files.len(),
    ensures
        r@ == files@.subrange(a as int, b as int),
{
    let mut r: Vec<String> = Vec::new();
    let mut k: usize = a;
    while k < b
        invariant
            a <= k <= b,
            b <= files.len(),
            r@ == files@.subrange(a as int, k as int),
        decreases b - k,
    {
        r.push(files[k].clone());
        assert(r@ =~= files@.subrange(a as int, k + 1));
        k = k + 1;
    }
    r
}

/// `num_cpus::get`: the number of CPUs that this process may use.
/// The crate documents that it is always at least 1; nothing else is claimed.
#[verifier::external_body]
fn cpu_count() -> (r: usize)
    ensures
        r >= 1,
{
    num_cpus::get()
}

/// Shares a job's files out among as many workers as there are CPUs (see
/// `partition_works`; how many CPUs there are is not stated).
pub fn plan_works(files: &Vec<String>, paras: ResizeParameter) -> (r: Vec<Works>)
    requires
        files.len() < usize::MAX,
    ensures
        exists|cpus: nat| cpus >= 1 && #[trigger] shares_for(r@, files@, paras, cpus),
        r.len() >= 1,
        forall|k: int| 0 <= k < r.len() ==> (#[trigger] r[k]).paras == paras,
        flatten_files(r@) == files@,
{
    let cpus = cpu_count();
    let r = partition_works(files, paras, cpus);
    assert(shares_for(r@, files@, paras, cpus as nat));
    r
}

} // verus!
