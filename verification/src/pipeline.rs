//! Pipeline driver.
//!
//! The build pipeline is a strictly linear state machine: frontend asset
//! build, registry regeneration, migration execution in a subordinate
//! process, introspection and entity emission, scratch-database teardown.
//! Each stage is a precondition for the next; the first failure aborts the
//! whole pipeline with the failing stage and its cause.  The outer driver
//! loop performs the stages' outside work and feeds each outcome back in.
//!
//! Teardown runs only on the success path: on an abort the scratch database
//! is deliberately left in place, as the state it holds at the failing
//! stage is what there is to diagnose with.

use vstd::prelude::*;
use vstd::relations::sorted_by;
use vstd::seq_lib::group_to_multiset_ensures;

use crate::bytestr::copy_bytes;
use crate::entity::{
    EntityFile, IntrospectionError, all_mapped, file_views, files_of, generate_entities,
};
use crate::order::{lex_leq, sort_tokens, views_of};
use crate::registry::{DiscoveryError, MigrationRegistry, aggregator_bytes, check_token, emit_aggregator, valid_token};
use crate::schema::{
    MigrationApplyError, MigrationModule, MigrationRun, initial_catalog, module_views, run_catalog,
    run_migrations, run_ok, tokens_of_modules,
};

verus! {

/// The stages of the pipeline, in order.
#[derive(Clone, Copy, PartialEq, Eq, Structural, Debug)]
pub enum Stage {
    BuildFrontendAssets,
    RegenerateRegistry,
    RunMigrationEngine,
    IntrospectAndEmit,
    TeardownScratchDatabase,
}

/// How a subordinate process failed: it could not be spawned, or it exited
/// with the given non-zero status code.
#[derive(Clone, Copy, PartialEq, Eq, Structural, Debug)]
pub enum SubprocessError {
    SpawnFailed,
    NonZeroExit(i32),
}

/// The structured cause of a pipeline abort.
#[derive(Debug)]
pub enum AbortCause {
    AssetBuild(SubprocessError),
    Discovery(DiscoveryError),
    Apply(MigrationApplyError),
    Subprocess(SubprocessError),
    Introspection(IntrospectionError),
    Teardown,
}

/// The driver's state: running some stage, finished, or aborted at the
/// failing stage with its cause.
#[derive(Debug)]
pub enum PipelineState {
    Running(Stage),
    Done,
    Aborted(Stage, AbortCause),
}

/// What the outside work of a stage reported back.
#[derive(Debug)]
pub enum StageOutcome {
    StageOk,
    StageFailed(AbortCause),
}

/// The stage after a successful one; teardown is last.
pub open spec fn next_stage(s: Stage) -> Option<Stage> {
    match s {
        Stage::BuildFrontendAssets => Some(Stage::RegenerateRegistry),
        Stage::RegenerateRegistry => Some(Stage::RunMigrationEngine),
        Stage::RunMigrationEngine => Some(Stage::IntrospectAndEmit),
        Stage::IntrospectAndEmit => Some(Stage::TeardownScratchDatabase),
        Stage::TeardownScratchDatabase => None,
    }
}

/// The pipeline starts with the frontend asset build.
pub fn initial_state() -> (s: PipelineState)
    ensures
        s == PipelineState::Running(Stage::BuildFrontendAssets),
{
    PipelineState::Running(Stage::BuildFrontendAssets)
}

/// Advances the state machine by one stage outcome.  On success the next
/// stage runs (or the pipeline is done after teardown); on failure the
/// pipeline aborts at the current stage, and no later stage is attempted.
pub fn advance(state: PipelineState, outcome: StageOutcome) -> (next: PipelineState)
    requires
        state is Running,
    ensures
        outcome is StageOk && next_stage(state->Running_0) is Some ==> next
            == PipelineState::Running(next_stage(state->Running_0)->0),
        outcome is StageOk && next_stage(state->Running_0) is None ==> next == PipelineState::Done,
        outcome is StageFailed ==> next == PipelineState::Aborted(
            state->Running_0,
            outcome->StageFailed_0,
        ),
{
    let stage = match state {
        PipelineState::Running(stage) => stage,
        _ => vstd::pervasive::unreached(),
    };
    match outcome {
        StageOutcome::StageOk => {
            match stage {
                Stage::BuildFrontendAssets => PipelineState::Running(Stage::RegenerateRegistry),
                Stage::RegenerateRegistry => PipelineState::Running(Stage::RunMigrationEngine),
                Stage::RunMigrationEngine => PipelineState::Running(Stage::IntrospectAndEmit),
                Stage::IntrospectAndEmit => PipelineState::Running(Stage::TeardownScratchDatabase),
                Stage::TeardownScratchDatabase => PipelineState::Done,
            }
        },
        StageOutcome::StageFailed(cause) => PipelineState::Aborted(stage, cause),
    }
}

/// Maps a subordinate process's exit status to a structured result: the
/// engine signals success solely via a zero exit code, and a process that
/// could not be spawned reports no code at all.
pub fn interpret_exit(code: Option<i32>) -> (r: Result<(), SubprocessError>)
    ensures
        r is Ok <==> code == Some(0i32),
        code is None ==> r == Result::<(), SubprocessError>::Err(SubprocessError::SpawnFailed),
        (code matches Some(c) && c != 0) ==> r == Result::<(), SubprocessError>::Err(
            SubprocessError::NonZeroExit(code->0),
        ),
{
    match code {
        Some(c) => {
            if c == 0 {
                Ok(())
            } else {
                Err(SubprocessError::NonZeroExit(c))
            }
        },
        None => Err(SubprocessError::SpawnFailed),
    }
}

/// No two modules share a name token: a module is immutable and uniquely
/// named, so a new change is a new module, never an edit.
pub open spec fn module_tokens_unique(ms: Seq<crate::schema::ModuleV>) -> bool {
    forall|i: int, j: int|
        0 <= i < j < ms.len() ==> (#[trigger] ms[i]).token != (#[trigger] ms[j]).token
}

/// Finds the module carrying the given name token.
fn find_module(modules: &Vec<MigrationModule>, token: &Vec<u8>) -> (r: Option<usize>)
    ensures
        r is Some ==> 0 <= r->0 < modules@.len() && module_views(modules@)[r->0 as int].token
            == token@,
        r is None ==> forall|i: int|
            0 <= i < modules@.len() ==> (#[trigger] module_views(modules@)[i]).token != token@,
{
    let mut i: usize = 0;
    while i < modules.len()
        invariant
            i <= modules@.len(),
            forall|j: int|
                0 <= j < i ==> (#[trigger] module_views(modules@)[j]).token != token@,
        decreases modules@.len() - i,
    {
        if crate::bytestr::bytes_eq_slice(token, modules[i].token.as_slice()) {
            proof {
                assert(module_views(modules@)[i as int].token == token@);
            }
            return Some(i);
        }
        proof {
            assert(module_views(modules@)[i as int].token != token@);
        }
        i = i + 1;
    }
    None
}

/// The registry stage applied to a module list: validates every name token
/// and arranges the modules in ascending token order.  A token that violates
/// the naming convention is a fatal discovery error.
pub fn order_modules(modules: &Vec<MigrationModule>) -> (r: Result<
    Vec<MigrationModule>,
    DiscoveryError,
>)
    requires
        module_tokens_unique(module_views(modules@)),
    ensures
        r is Ok <==> (forall|i: int|
            0 <= i < modules@.len() ==> valid_token(
                (#[trigger] module_views(modules@)[i]).token,
            )),
        r is Ok ==> ({
            let out = module_views(r->Ok_0@);
            let ms = module_views(modules@);
            &&& sorted_by(tokens_of_modules(out), lex_leq())
            &&& tokens_of_modules(out).to_multiset() == tokens_of_modules(ms).to_multiset()
            &&& forall|k: int, i: int|
                0 <= k < out.len() && 0 <= i < ms.len() && (#[trigger] out[k]).token
                    == (#[trigger] ms[i]).token ==> out[k] == ms[i]
        }),
        r is Err ==> (r->Err_0 matches DiscoveryError::MalformedName(tok) && !valid_token(tok@)
            && exists|i: int|
            0 <= i < modules@.len() && (#[trigger] module_views(modules@)[i]).token == tok@),
{
    broadcast use group_to_multiset_ensures;

    let ghost ms = module_views(modules@);
    let mut toks: Vec<Vec<u8>> = Vec::new();
    let mut i: usize = 0;
    proof {
        assert(views_of(toks@) =~= tokens_of_modules(ms).take(0));
    }
    while i < modules.len()
        invariant
            i <= modules@.len(),
            views_of(toks@) =~= tokens_of_modules(module_views(modules@)).take(i as int),
            forall|j: int|
                0 <= j < i ==> valid_token((#[trigger] module_views(modules@)[j]).token),
        decreases modules@.len() - i,
    {
        let ghost msl = module_views(modules@);
        let m = &modules[i];
        if !check_token(&m.token) {
            proof {
                assert(msl[i as int].token == m@.token);
            }
            return Err(DiscoveryError::MalformedName(copy_bytes(&m.token)));
        }
        let ghost prev = views_of(toks@);
        toks.push(copy_bytes(&m.token));
        i = i + 1;
        proof {
            assert(views_of(toks@) =~= prev.push(msl[i as int - 1].token));
            assert(views_of(toks@) =~= tokens_of_modules(msl).take(i as int));
        }
    }
    proof {
        assert(tokens_of_modules(module_views(modules@)).take(modules@.len() as int)
            =~= tokens_of_modules(module_views(modules@)));
    }
    let sorted = sort_tokens(toks);
    let mut out: Vec<MigrationModule> = Vec::new();
    let mut k: usize = 0;
    proof {
        assert(tokens_of_modules(module_views(out@)) =~= views_of(sorted@).take(0));
    }
    while k < sorted.len()
        invariant
            k <= sorted@.len(),
            sorted_by(views_of(sorted@), lex_leq()),
            views_of(sorted@).to_multiset() == tokens_of_modules(module_views(modules@)).to_multiset(),
            tokens_of_modules(module_views(out@)) =~= views_of(sorted@).take(k as int),
            module_tokens_unique(module_views(modules@)),
            forall|j: int, i: int|
                0 <= j < k && 0 <= i < modules@.len() && (#[trigger] module_views(out@)[j]).token
                    == (#[trigger] module_views(modules@)[i]).token ==> module_views(out@)[j]
                    == module_views(modules@)[i],
        decreases sorted@.len() - k,
    {
        broadcast use group_to_multiset_ensures;

        let ghost msl = module_views(modules@);
        let tk = &sorted[k];
        proof {
            assert(views_of(sorted@)[k as int] == tk@);
            assert(views_of(sorted@).contains(tk@));
            assert(views_of(sorted@).to_multiset().count(tk@) > 0);
            assert(tokens_of_modules(msl).to_multiset().count(tk@) > 0);
            assert(tokens_of_modules(msl).contains(tk@));
        }
        let mi = match find_module(modules, tk) {
            Some(mi) => mi,
            None => {
                proof {
                    let w = choose|w: int|
                        0 <= w < tokens_of_modules(msl).len() && tokens_of_modules(msl)[w] == tk@;
                    assert(msl[w].token == tk@);
                    assert(false);
                }
                vstd::pervasive::unreached()
            },
        };
        let ghost prev = module_views(out@);
        let copied = crate::schema::copy_module(&modules[mi]);
        out.push(copied);
        k = k + 1;
        proof {
            assert(tokens_of_modules(prev).len() == prev.len());
            assert(views_of(sorted@).take(k as int - 1).len() == k - 1);
            assert(prev.len() == k - 1);
            assert(module_views(out@) =~= prev.push(msl[mi as int]));
            assert(module_views(out@)[k as int - 1] == msl[mi as int]);
            assert(msl[mi as int].token == tk@);
            assert(tokens_of_modules(module_views(out@)).len() == k as int);
            assert forall|j: int| 0 <= j < k implies tokens_of_modules(module_views(out@))[j]
                == views_of(sorted@).take(k as int)[j] by {
                if j < k - 1 {
                    assert(module_views(out@)[j] == prev[j]);
                    assert(tokens_of_modules(prev)[j] == views_of(sorted@)[j]);
                } else {
                    assert(tokens_of_modules(module_views(out@))[j] == msl[mi as int].token);
                    assert(views_of(sorted@)[j] == tk@);
                }
            }
            assert(tokens_of_modules(module_views(out@)) =~= views_of(sorted@).take(k as int));
            assert forall|j: int, i: int|
                0 <= j < k && 0 <= i < modules@.len() && (#[trigger] module_views(out@)[j]).token
                    == (#[trigger] module_views(modules@)[i]).token implies module_views(out@)[j]
                == module_views(modules@)[i] by {
                if j == k - 1 {
                    assert(module_views(out@)[j] == msl[mi as int]);
                    if i != mi {
                        if i < mi {
                            assert(msl[i].token != msl[mi as int].token);
                        } else {
                            assert(msl[mi as int].token != msl[i].token);
                        }
                    }
                } else {
                    assert(module_views(out@)[j] == prev[j]);
                }
            }
        }
    }
    proof {
        assert(views_of(sorted@).take(sorted@.len() as int) =~= views_of(sorted@));
        assert(tokens_of_modules(module_views(out@)) == views_of(sorted@));
        assert(tokens_of_modules(module_views(out@)).len() == module_views(out@).len());
    }
    Ok(out)
}

/// Everything the generation stages of a successful pipeline run produce:
/// the regenerated aggregator artifact, the engine's run, and the emitted
/// entity files.
#[derive(Debug)]
pub struct GenerationOutput {
    pub aggregator: Vec<u8>,
    pub run: MigrationRun,
    pub files: Vec<EntityFile>,
}

/// A pipeline abort: the failing stage and its structured cause.
#[derive(Debug)]
pub struct PipelineAbort {
    pub stage: Stage,
    pub cause: AbortCause,
}

/// Runs the computable stages of the pipeline on modules already in registry
/// order: regenerates the aggregator artifact, applies every module's
/// forward operations to the scratch catalog, and introspects the result
/// into entity files.  The first failure aborts with its stage; later stages
/// are not attempted.
pub fn run_generation(modules: &Vec<MigrationModule>, timestamp: &Vec<u8>) -> (r: Result<
    GenerationOutput,
    PipelineAbort,
>)
    ensures
        r is Ok <==> run_ok(initial_catalog(), module_views(modules@)) && all_mapped(
            run_catalog(initial_catalog(), module_views(modules@)),
        ),
        r is Ok ==> ({
            let out = r->Ok_0;
            let ms = module_views(modules@);
            let cat = run_catalog(initial_catalog(), ms);
            &&& out.aggregator@ == aggregator_bytes(tokens_of_modules(ms), timestamp@)
            &&& out.run.catalog@ == cat
            &&& views_of(out.run.applied@) == tokens_of_modules(ms)
            &&& file_views(out.files@) == files_of(cat)
        }),
        r is Err ==> ({
            let ab = r->Err_0;
            let ms = module_views(modules@);
            &&& (ab.stage is RunMigrationEngine || ab.stage is IntrospectAndEmit)
            &&& ab.stage is RunMigrationEngine ==> ab.cause is Apply && !run_ok(
                initial_catalog(),
                ms,
            )
            &&& ab.stage is RunMigrationEngine ==> ({
                let e = ab.cause->Apply_0;
                let i = e.module_index as int;
                &&& 0 <= i < ms.len()
                &&& run_ok(initial_catalog(), ms.take(i))
                &&& !crate::schema::module_ok(run_catalog(initial_catalog(), ms.take(i)), ms[i])
                &&& e.module_token@ == ms[i].token
                &&& views_of(e.applied@) == tokens_of_modules(ms.take(i))
            })
            &&& ab.stage is IntrospectAndEmit ==> run_ok(initial_catalog(), ms) && ab.cause
                is Introspection && !all_mapped(run_catalog(initial_catalog(), ms))
        }),
{
    let mut tokens: Vec<Vec<u8>> = Vec::new();
    let mut i: usize = 0;
    proof {
        assert(views_of(tokens@) =~= tokens_of_modules(module_views(modules@)).take(0));
    }
    while i < modules.len()
        invariant
            i <= modules@.len(),
            views_of(tokens@) =~= tokens_of_modules(module_views(modules@)).take(i as int),
        decreases modules@.len() - i,
    {
        let ghost prev = views_of(tokens@);
        tokens.push(copy_bytes(&modules[i].token));
        i = i + 1;
        proof {
            assert(views_of(tokens@) =~= prev.push(module_views(modules@)[i as int - 1].token));
            assert(views_of(tokens@) =~= tokens_of_modules(module_views(modules@)).take(i as int));
        }
    }
    proof {
        assert(tokens_of_modules(module_views(modules@)).take(modules@.len() as int)
            =~= tokens_of_modules(module_views(modules@)));
    }
    let reg = MigrationRegistry { tokens };
    let aggregator = emit_aggregator(&reg, timestamp);
    let run = match run_migrations(modules) {
        Ok(run) => run,
        Err(e) => {
            return Err(PipelineAbort {
                stage: Stage::RunMigrationEngine,
                cause: AbortCause::Apply(e),
            });
        },
    };
    let files = match generate_entities(&run.catalog) {
        Ok(files) => files,
        Err(e) => {
            return Err(PipelineAbort {
                stage: Stage::IntrospectAndEmit,
                cause: AbortCause::Introspection(e),
            });
        },
    };
    Ok(GenerationOutput { aggregator, run, files })
}

} // verus!
