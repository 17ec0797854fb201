use vstd::prelude::*;
use vstd::string::StringExecFns;

use crate::errors::DebugError;
use crate::scan::ScanOutcome;

verus! {

/// What the debug command should do once the artifact has been scanned:
/// either report that no toolchain could be identified — a legitimate
/// negative result, not an error — or run the named candidate's
/// executable with exactly these arguments.
#[derive(Debug)]
pub enum SymbolicationPlan {
    NoToolchain,
    Run { index: usize, executable: String, argv: Vec<String> },
}

/// One entry of the toolchain registry: the address-to-line executable,
/// the marker bytes that identify binaries built by this toolchain, the
/// extra arguments its invocation needs, the directory (relative to the
/// toolchain root) in which the executable lives, and a display name.
pub struct Candidate {
    pub binary: String,
    pub magic: Vec<u8>,
    pub args: Vec<String>,
    pub search_path: String,
    pub device: String,
}

/// The immutable table of known toolchains, built once at startup and
/// passed by reference wherever it is needed.
pub struct Registry {
    pub candidates: Vec<Candidate>,
}

/// Marker of binaries produced for the devkitARM target ("3dsx_crt0.o").
pub open spec fn magic_ctr() -> Seq<u8> {
    seq![51u8, 100u8, 115u8, 120u8, 95u8, 99u8, 114u8, 116u8, 48u8, 46u8, 111u8]
}

/// Marker of binaries produced for the devkitA64 target ("switch_crt0.o").
pub open spec fn magic_hac() -> Seq<u8> {
    seq![115u8, 119u8, 105u8, 116u8, 99u8, 104u8, 95u8, 99u8, 114u8, 116u8, 48u8, 46u8, 111u8]
}

/// Marker of binaries produced for the devkitPPC target ("crt0_rpx.o").
pub open spec fn magic_cafe() -> Seq<u8> {
    seq![99u8, 114u8, 116u8, 48u8, 95u8, 114u8, 112u8, 120u8, 46u8, 111u8]
}

impl Registry {
    /// The marker byte sequences, in registration order.
    pub open spec fn magics(self) -> Seq<Seq<u8>> {
        self.candidates@.map_values(|c: Candidate| c.magic@)
    }

    /// Registry invariant: every marker is non-empty, no two registered
    /// markers are the same byte sequence, and every search path is
    /// relative, to be joined under the configured root directory.
    pub open spec fn wf(self) -> bool {
        &&& forall|i: int|
            0 <= i < self.candidates@.len() ==> (#[trigger] self.candidates@[i].magic@).len() > 0
        &&& forall|i: int, j: int|
            0 <= i < j < self.candidates@.len() ==> (#[trigger] self.candidates@[i].magic@)
                != (#[trigger] self.candidates@[j].magic@)
        &&& forall|i: int|
            0 <= i < self.candidates@.len() ==> ((#[trigger] self.candidates@[i].search_path@).len()
                == 0 || self.candidates@[i].search_path@[0] != '/')
    }

    /// The length of the longest registered marker; zero for an empty
    /// registry.
    pub fn max_magic_len(&self) -> (r: usize)
        ensures
            r == max_pat_len(self.magics()),
    {
        let mut m: usize = 0;
        let mut i: usize = 0;
        while i < self.candidates.len()
            invariant
                0 <= i <= self.candidates@.len(),
                m == max_pat_len(self.magics().take(i as int)),
            decreases self.candidates@.len() - i,
        {
            let l = self.candidates[i].magic.len();
            if l > m {
                m = l;
            }
            proof {
                assert(self.magics().take(i + 1).drop_last() =~= self.magics().take(i as int));
                assert(self.magics().take(i + 1).last() == self.candidates@[i as int].magic@);
            }
            i = i + 1;
        }
        proof {
            assert(self.magics().take(self.candidates@.len() as int) =~= self.magics());
        }
        m
    }

    /// Turns the scan verdict into a runnable decision.  `NoMatch` yields
    /// a clean "no toolchain" answer, which is not an error; a match goes
    /// through the resolver and then the invocation plan, the first error
    /// winning.  An error implies no process: the only way to an argument
    /// list is an accepted plan.
    pub fn dispatch(
        &self,
        outcome: ScanOutcome,
        root: &Option<String>,
        target: &String,
        target_is_file: bool,
        addresses: &Vec<String>,
    ) -> (r: Result<SymbolicationPlan, DebugError>)
        requires
            outcome matches ScanOutcome::Found { index, offset } ==> (index as int)
                < self.candidates@.len(),
        ensures
            match r {
                Ok(SymbolicationPlan::NoToolchain) => outcome matches ScanOutcome::NoMatch,
                Ok(SymbolicationPlan::Run { index, executable, argv }) => (outcome
                    matches ScanOutcome::Found { index: fi, offset } && fi == index) && (index
                    as int) < self.candidates@.len() && executable@
                    == self.candidates@[index as int].resolved_name_spec(*root) && target_is_file
                    && addresses@.len() > 0 && views_of_strings(argv@)
                    == self.candidates@[index as int].argv_spec(
                    target@,
                    views_of_strings(addresses@),
                ),
                Err(DebugError::ToolchainNotFound { name, expected_location }) => exists|i: int|
                    {
                        &&& outcome matches ScanOutcome::Found { index, offset } && index == i
                        &&& 0 <= i < self.candidates@.len()
                        &&& name@ == self.candidates@[i].binary@
                        &&& expected_location@ == self.candidates@[i].resolved_name_spec(*root)
                    },
                Err(DebugError::InvalidTarget { path }) => (outcome matches ScanOutcome::Found {
                    index,
                    offset,
                }) && !target_is_file && path@ == target@,
                Err(DebugError::NoAddresses) => (outcome matches ScanOutcome::Found {
                    index,
                    offset,
                }) && target_is_file && addresses@.len() == 0,
                Err(_) => false,
            },
    {
        match outcome {
            ScanOutcome::NoMatch => Ok(SymbolicationPlan::NoToolchain),
            ScanOutcome::Found { index, offset: _ } => {
                let candidate = &self.candidates[index];
                let executable = match candidate.resolve(root) {
                    Ok(p) => p,
                    Err(e) => {
                        return Err(e);
                    },
                };
                let argv = match candidate.invoke_plan(target, target_is_file, addresses) {
                    Ok(a) => a,
                    Err(e) => {
                        return Err(e);
                    },
                };
                Ok(SymbolicationPlan::Run { index, executable, argv })
            },
        }
    }

    /// The fixed table the tool ships with: the three devkit toolchains.
    pub fn standard() -> (r: Registry)
        ensures
            r.wf(),
            r.candidates@.len() == 3,
            r.candidates@[0].magic@ == magic_ctr(),
            r.candidates@[1].magic@ == magic_hac(),
            r.candidates@[2].magic@ == magic_cafe(),
            r.candidates@[0].binary@ == "arm-none-eabi-addr2line"@,
            r.candidates@[1].binary@ == "aarch64-none-elf-addr2line"@,
            r.candidates@[2].binary@ == "powerpc-eabi-addr2line"@,
            r.candidates@[0].search_path@ == "devkitARM/bin"@,
            r.candidates@[1].search_path@ == "devkitA64/bin"@,
            r.candidates@[2].search_path@ == "devkitPPC/bin"@,
            r.candidates@[0].device@ == "Nintendo 3DS"@,
            r.candidates@[1].device@ == "Nintendo Switch"@,
            r.candidates@[2].device@ == "Nintendo Wiiᵘ"@,
            r.candidates@[0].args@.map_values(|s: String| s@) =~= seq!["arm"@],
            r.candidates@[1].args@.map_values(|s: String| s@) =~= seq![""@],
            r.candidates@[2].args@.map_values(|s: String| s@) =~= seq![""@],
    {
        let ctr_magic: Vec<u8> = vec![51u8, 100u8, 115u8, 120u8, 95u8, 99u8, 114u8, 116u8, 48u8, 46u8, 111u8];
        let hac_magic: Vec<u8> = vec![115u8, 119u8, 105u8, 116u8, 99u8, 104u8, 95u8, 99u8, 114u8, 116u8, 48u8, 46u8, 111u8];
        let cafe_magic: Vec<u8> = vec![99u8, 114u8, 116u8, 48u8, 95u8, 114u8, 112u8, 120u8, 46u8, 111u8];
        let ctr_args: Vec<String> = vec!["arm".to_owned()];
        let hac_args: Vec<String> = vec!["".to_owned()];
        let cafe_args: Vec<String> = vec!["".to_owned()];
        let candidates: Vec<Candidate> = vec![
            Candidate {
                binary: "arm-none-eabi-addr2line".to_owned(),
                magic: ctr_magic,
                args: ctr_args,
                search_path: "devkitARM/bin".to_owned(),
                device: "Nintendo 3DS".to_owned(),
            },
            Candidate {
                binary: "aarch64-none-elf-addr2line".to_owned(),
                magic: hac_magic,
                args: hac_args,
                search_path: "devkitA64/bin".to_owned(),
                device: "Nintendo Switch".to_owned(),
            },
            Candidate {
                binary: "powerpc-eabi-addr2line".to_owned(),
                magic: cafe_magic,
                args: cafe_args,
                search_path: "devkitPPC/bin".to_owned(),
                device: "Nintendo Wiiᵘ".to_owned(),
            },
        ];
        let r = Registry { candidates };
        proof {
            reveal_strlit("devkitARM/bin");
            reveal_strlit("devkitA64/bin");
            reveal_strlit("devkitPPC/bin");
            assert(r.magics() =~= seq![magic_ctr(), magic_hac(), magic_cafe()]);
            assert(r.candidates@[0].search_path@[0] == 'd');
            assert(r.candidates@[1].search_path@[0] == 'd');
            assert(r.candidates@[2].search_path@[0] == 'd');
            assert forall|i: int, j: int|
                0 <= i < j < r.candidates@.len() implies (#[trigger] r.candidates@[i].magic@)
                != (#[trigger] r.candidates@[j].magic@) by {
                assert(r.candidates@[i].magic@.len() != r.candidates@[j].magic@.len());
            }
        }
        r
    }
}

/// The views of a list of strings.
pub open spec fn views_of_strings(xs: Seq<String>) -> Seq<Seq<char>> {
    xs.map_values(|s: String| s@)
}

/// Relies on `which::which`: it returns `Ok` exactly when the named
/// program resolves to an executable file, a property of the machine at
/// call time, so nothing is promised of the result.
#[verifier::external_body]
fn which_ok(name: &String) -> bool {
    which::which(name.as_str()).is_ok()
}

impl Candidate {
    /// The path at which the toolchain executable is expected: under the
    /// configured root directory when one is set, else the bare
    /// executable name, to be found on the system search path.
    pub open spec fn resolved_name_spec(self, root: Option<String>) -> Seq<char> {
        match root {
            Some(d) => d@ + "/"@ + self.search_path@ + "/"@ + self.binary@,
            None => self.binary@,
        }
    }

    /// Builds the expected executable path from the optional root
    /// directory.
    pub fn resolved_name(&self, root: &Option<String>) -> (r: String)
        ensures
            r@ == self.resolved_name_spec(*root),
    {
        match root {
            Some(d) => {
                let mut s = d.clone();
                s.append("/");
                s.append(self.search_path.as_str());
                s.append("/");
                s.append(self.binary.as_str());
                s
            },
            None => self.binary.clone(),
        }
    }

    /// Turns the executable-lookup verdict into the resolver's result:
    /// the candidate path when the lookup succeeded, and otherwise a
    /// `ToolchainNotFound` error naming the executable and where it was
    /// expected.
    pub fn resolution_outcome(&self, candidate: String, found: bool) -> (r: Result<
        String,
        DebugError,
    >)
        ensures
            match r {
                Ok(p) => found && p@ == candidate@,
                Err(DebugError::ToolchainNotFound { name, expected_location }) => !found && name@
                    == self.binary@ && expected_location@ == candidate@,
                Err(_) => false,
            },
    {
        if found {
            Ok(candidate)
        } else {
            Err(
                DebugError::ToolchainNotFound {
                    name: self.binary.clone(),
                    expected_location: candidate,
                },
            )
        }
    }

    /// Locates this toolchain's executable.  A missing root directory is
    /// not an error: the bare name is then looked up on the system path.
    /// Whichever way the machine answers the lookup, the result is either
    /// the expected path or an error that names it.
    pub fn resolve(&self, root: &Option<String>) -> (r: Result<String, DebugError>)
        ensures
            match r {
                Ok(p) => p@ == self.resolved_name_spec(*root),
                Err(DebugError::ToolchainNotFound { name, expected_location }) => name@
                    == self.binary@ && expected_location@ == self.resolved_name_spec(*root),
                Err(_) => false,
            },
    {
        let candidate = self.resolved_name(root);
        let found = which_ok(&candidate);
        self.resolution_outcome(candidate, found)
    }

    /// The exact argument list of a symbolication run: the combined flag
    /// token, this toolchain's extra arguments in registration order, the
    /// target-file flag and path, then every address in caller order.
    pub open spec fn argv_spec(self, target: Seq<char>, addresses: Seq<Seq<char>>) -> Seq<
        Seq<char>,
    > {
        seq!["-aipfCe"@] + views_of_strings(self.args@) + seq!["-e"@, target] + addresses
    }

    /// Constructs the argument list for a symbolication run.
    pub fn build_argv(&self, target: &String, addresses: &Vec<String>) -> (r: Vec<String>)
        ensures
            views_of_strings(r@) == self.argv_spec(target@, views_of_strings(addresses@)),
    {
        let ghost n = self.args@.len() as int;
        let mut v: Vec<String> = Vec::new();
        v.push("-aipfCe".to_owned());
        let mut i: usize = 0;
        while i < self.args.len()
            invariant
                0 <= i <= self.args@.len(),
                v@.len() == 1 + i,
                v@[0]@ == "-aipfCe"@,
                forall|l: int| 1 <= l < 1 + i ==> (#[trigger] v@[l])@ == self.args@[l - 1]@,
            decreases self.args@.len() - i,
        {
            v.push(self.args[i].clone());
            i = i + 1;
        }
        v.push("-e".to_owned());
        v.push(target.clone());
        let mut j: usize = 0;
        while j < addresses.len()
            invariant
                0 <= j <= addresses@.len(),
                n == self.args@.len(),
                v@.len() == 3 + n + j,
                v@[0]@ == "-aipfCe"@,
                forall|l: int| 1 <= l < 1 + n ==> (#[trigger] v@[l])@ == self.args@[l - 1]@,
                v@[1 + n]@ == "-e"@,
                v@[2 + n]@ == target@,
                forall|l: int|
                    3 + n <= l < 3 + n + j ==> (#[trigger] v@[l])@ == addresses@[l - 3 - n]@,
            decreases addresses@.len() - j,
        {
            v.push(addresses[j].clone());
            j = j + 1;
        }
        proof {
            let spec_argv = self.argv_spec(target@, views_of_strings(addresses@));
            assert forall|l: int| 0 <= l < v@.len() implies #[trigger] views_of_strings(v@)[l]
                == spec_argv[l] by {
                assert(views_of_strings(v@)[l] == v@[l]@);
                if 1 <= l < 1 + n {
                    assert(views_of_strings(self.args@)[l - 1] == self.args@[l - 1]@);
                }
                if 3 + n <= l {
                    assert(views_of_strings(addresses@)[l - 3 - n] == addresses@[l - 3 - n]@);
                }
            }
            assert(views_of_strings(v@) =~= spec_argv);
        }
        v
    }

    /// Decides a symbolication request before any process is spawned: a
    /// target that is not an existing regular file is rejected first, then
    /// an empty address list; otherwise the request is accepted and the
    /// exact argument list is produced.  `target_is_file` is the
    /// caller-supplied answer of the file-system check.
    pub fn invoke_plan(&self, target: &String, target_is_file: bool, addresses: &Vec<String>)
        -> (r: Result<Vec<String>, DebugError>)
        ensures
            match r {
                Ok(argv) => target_is_file && addresses@.len() > 0 && views_of_strings(argv@)
                    == self.argv_spec(target@, views_of_strings(addresses@)),
                Err(DebugError::InvalidTarget { path }) => !target_is_file && path@ == target@,
                Err(DebugError::NoAddresses) => target_is_file && addresses@.len() == 0,
                Err(_) => false,
            },
    {
        if !target_is_file {
            return Err(DebugError::InvalidTarget { path: target.clone() });
        }
        if addresses.len() == 0 {
            return Err(DebugError::NoAddresses);
        }
        Ok(self.build_argv(target, addresses))
    }
}

/// The length of the longest pattern in the list; zero when the list is
/// empty.
pub open spec fn max_pat_len(pats: Seq<Seq<u8>>) -> nat
    decreases pats.len(),
{
    if pats.len() == 0 {
        0
    } else {
        let rest = max_pat_len(pats.drop_last());
        if pats.last().len() > rest {
            pats.last().len()
        } else {
            rest
        }
    }
}

/// No pattern in the list is longer than `max_pat_len` of the list.
pub proof fn lemma_max_pat_len(pats: Seq<Seq<u8>>)
    ensures
        forall|k: int| 0 <= k < pats.len() ==> (#[trigger] pats[k]).len() <= max_pat_len(pats),
    decreases pats.len(),
{
    if pats.len() > 0 {
        lemma_max_pat_len(pats.drop_last());
        assert forall|k: int| 0 <= k < pats.len() implies (#[trigger] pats[k]).len()
            <= max_pat_len(pats) by {
            if k < pats.len() - 1 {
                assert(pats.drop_last()[k] == pats[k]);
            }
        }
    }
}

} // verus!
