//! The order of work that builds the npm package: one compile, two bindings,
//! one package. The steps themselves (running the compiler, `wasm-bindgen`,
//! `wasm-opt`, writing files) are the caller's; this decides what comes next
//! from how the last step went.

use vstd::prelude::*;

verus! {

/// `(wasm-bindgen target, directory under pkg/)`, in the order the size
/// report leads with: the build the playground loads first.
pub const BUILDS: [(&'static str, &'static str); 2] = [("web", "web"), ("nodejs", "node")];

/// The number of bindings built.
pub const BINDINGS: usize = 2;

/// A step of the build.
#[derive(Clone, Copy, PartialEq, Eq, Structural, Debug)]
pub enum Step {
    /// Find the workspace root.
    LocateRoot,
    /// Read the version the workspace and the binding crate agree on.
    ReadVersion,
    /// Compile the module for `wasm32-unknown-unknown`.
    Compile,
    /// Find the compiled module where the build leaves it.
    FindModule,
    /// Check that the `wasm-bindgen` command matches the crate.
    CheckBindgen,
    /// Run `wasm-bindgen` for the binding at this index of [`BUILDS`].
    Bind(usize),
    /// Run `wasm-opt` on the module of the binding at this index.
    Optimize(usize),
    /// Say that the modules were left unoptimized.
    NoteUnoptimized,
    /// Write `package.json`, the node scope, the README and the licence.
    WriteManifest,
    /// Report the sizes of what was written.
    Report,
    /// The package is built.
    Succeeded,
    /// A step failed; the build stops.
    Failed,
}

/// Where a build stands.
#[derive(Clone, Copy, PartialEq, Eq, Structural, Debug)]
pub struct Build {
    pub step: Step,
    /// Whether some `wasm-opt` run failed (the module is then larger than it
    /// needs to be, but still works).
    pub unoptimized: bool,
}

impl Build {
    /// The index of each binding step names an entry of [`BUILDS`].
    pub open spec fn wf(self) -> bool {
        match self.step {
            Step::Bind(i) => i < BINDINGS,
            Step::Optimize(i) => i < BINDINGS,
            _ => true,
        }
    }

    pub open spec fn is_finished(self) -> bool {
        self.step is Succeeded || self.step is Failed
    }

    /// The state after the current step, which succeeded or not. Every step
    /// is required but `wasm-opt`: without it the build still succeeds, only
    /// with a note.
    pub open spec fn after(self, ok: bool) -> Build {
        let fail = Build { step: Step::Failed, unoptimized: self.unoptimized };
        let go = |s: Step| Build { step: s, unoptimized: self.unoptimized };
        match self.step {
            Step::LocateRoot => if ok { go(Step::ReadVersion) } else { fail },
            Step::ReadVersion => if ok { go(Step::Compile) } else { fail },
            Step::Compile => if ok { go(Step::FindModule) } else { fail },
            Step::FindModule => if ok { go(Step::CheckBindgen) } else { fail },
            Step::CheckBindgen => if ok { go(Step::Bind(0)) } else { fail },
            Step::Bind(i) => if ok { go(Step::Optimize(i)) } else { fail },
            Step::Optimize(i) => {
                let unoptimized = self.unoptimized || !ok;
                if i + 1 < BINDINGS {
                    Build { step: Step::Bind((i + 1) as usize), unoptimized }
                } else if unoptimized {
                    Build { step: Step::NoteUnoptimized, unoptimized }
                } else {
                    Build { step: Step::WriteManifest, unoptimized }
                }
            },
            Step::NoteUnoptimized => go(Step::WriteManifest),
            Step::WriteManifest => if ok { go(Step::Report) } else { fail },
            Step::Report => go(Step::Succeeded),
            Step::Succeeded => self,
            Step::Failed => self,
        }
    }

    /// Where a build from `self` stands after steps that went as `outcomes` say.
    pub open spec fn run(self, outcomes: Seq<bool>) -> Build
        decreases outcomes.len(),
    {
        if outcomes.len() == 0 {
            self
        } else {
            self.after(outcomes[0]).run(outcomes.drop_first())
        }
    }

    /// A build that has not started.
    pub fn start() -> (b: Build)
        ensures
            b == (Build { step: Step::LocateRoot, unoptimized: false }),
            b.wf(),
    {
        Build { step: Step::LocateRoot, unoptimized: false }
    }

    /// The state after the current step, which succeeded when `ok`.
    pub fn advance(&self, ok: bool) -> (r: Build)
        requires
            self.wf(),
        ensures
            r == self.after(ok),
            r.wf(),
    {
        let fail = Build { step: Step::Failed, unoptimized: self.unoptimized };
        let next = match self.step {
            Step::LocateRoot => Step::ReadVersion,
            Step::ReadVersion => Step::Compile,
            Step::Compile => Step::FindModule,
            Step::FindModule => Step::CheckBindgen,
            Step::CheckBindgen => Step::Bind(0),
            Step::Bind(i) => Step::Optimize(i),
            Step::Optimize(i) => {
                let unoptimized = self.unoptimized || !ok;
                if i + 1 < BINDINGS {
                    return Build { step: Step::Bind(i + 1), unoptimized };
                } else if unoptimized {
                    return Build { step: Step::NoteUnoptimized, unoptimized };
                } else {
                    return Build { step: Step::WriteManifest, unoptimized };
                }
            },
            Step::NoteUnoptimized => {
                return Build { step: Step::WriteManifest, unoptimized: self.unoptimized };
            },
            Step::Report => {
                return Build { step: Step::Succeeded, unoptimized: self.unoptimized };
            },
            Step::WriteManifest => Step::Report,
            Step::Succeeded => {
                return *self;
            },
            Step::Failed => {
                return *self;
            },
        };
        if ok {
            Build { step: next, unoptimized: self.unoptimized }
        } else {
            fail
        }
    }
}

/// A build that has not started.
pub open spec fn fresh() -> Build {
    Build { step: Step::LocateRoot, unoptimized: false }
}

/// When every step goes well the package is built, with both bindings
/// optimized, in eleven steps.
pub proof fn lemma_all_steps_succeed()
    ensures
        fresh().run(seq![true, true, true, true, true, true, true, true, true, true, true]) == (Build {
            step: Step::Succeeded,
            unoptimized: false,
        }),
{
    reveal_with_fuel(Build::run, 12);
}

/// A required step that fails ends the build at once, and nothing after it
/// changes that.
pub proof fn lemma_failure_is_final(b: Build, outcomes: Seq<bool>)
    requires
        !(b.step is Optimize || b.step is NoteUnoptimized || b.step is Report || b.step is Succeeded),
    ensures
        b.after(false).step == Step::Failed,
        b.after(false).run(outcomes).step == Step::Failed,
    decreases outcomes.len(),
{
    lemma_failed_stays(b.after(false), outcomes);
}

/// A failed build stays failed.
pub proof fn lemma_failed_stays(b: Build, outcomes: Seq<bool>)
    requires
        b.step == Step::Failed,
    ensures
        b.run(outcomes) == b,
    decreases outcomes.len(),
{
    if outcomes.len() > 0 {
        lemma_failed_stays(b.after(outcomes[0]), outcomes.drop_first());
    }
}

/// `wasm-opt` is optional: when every other step goes well the package is
/// built whatever the two `wasm-opt` runs did, and a note is given exactly
/// when one of them failed.
pub proof fn lemma_optimizer_is_optional(web: bool, node: bool)
    ensures
        ({
            let unoptimized = !web || !node;
            let outcomes = seq![true, true, true, true, true, true, web, true, node] + (if unoptimized {
                seq![true]
            } else {
                Seq::empty()
            }) + seq![true, true];
            let end = fresh().run(outcomes);
            end == (Build { step: Step::Succeeded, unoptimized })
        }),
{
    reveal_with_fuel(Build::run, 13);
    let unoptimized = !web || !node;
    let outcomes = seq![true, true, true, true, true, true, web, true, node] + (if unoptimized {
        seq![true]
    } else {
        Seq::empty()
    }) + seq![true, true];
}

/// The state after `k` steps that all went well.
pub open spec fn after_ok_steps(k: nat) -> Build
    decreases k,
{
    if k == 0 {
        fresh()
    } else {
        after_ok_steps((k - 1) as nat).after(true)
    }
}

/// The order of the build: when every step goes well, each step is taken
/// once, in this order, ending in success.
pub proof fn lemma_steps_in_order()
    ensures
        ({
            let order = seq![
                Step::LocateRoot,
                Step::ReadVersion,
                Step::Compile,
                Step::FindModule,
                Step::CheckBindgen,
                Step::Bind(0),
                Step::Optimize(0),
                Step::Bind(1),
                Step::Optimize(1),
                Step::WriteManifest,
                Step::Report,
                Step::Succeeded,
            ];
            forall|k: nat| k < 12 ==> (#[trigger] after_ok_steps(k)).step == order[k as int]
        }),
{
    assert(after_ok_steps(0).step == Step::LocateRoot);
    assert(after_ok_steps(1).step == Step::ReadVersion);
    assert(after_ok_steps(2).step == Step::Compile);
    assert(after_ok_steps(3).step == Step::FindModule);
    assert(after_ok_steps(4).step == Step::CheckBindgen);
    assert(after_ok_steps(5).step == Step::Bind(0));
    assert(after_ok_steps(6).step == Step::Optimize(0));
    assert(after_ok_steps(7).step == Step::Bind(1));
    assert(after_ok_steps(8).step == Step::Optimize(1));
    assert(after_ok_steps(9).step == Step::WriteManifest);
    assert(after_ok_steps(10).step == Step::Report);
    assert(after_ok_steps(11).step == Step::Succeeded);
}

} // verus!
