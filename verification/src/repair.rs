use vstd::prelude::*;
use crate::json::{Json, JsonV, json_view};
use crate::defect::{Defect, DefectV};
use crate::schema::{Schema, decode, decode_spec};
use crate::scaffold::{scaffold_spec, path_representable};
use crate::pointer::{StructuralPath, PathSegV, parse_pointer_spec};
use crate::merge::{merge_spec, merge};
use crate::access::{set_at_pointer_spec, write_at_pointer};
use crate::strutil::{concat2, str_eq};

verus! {

/// The most passes one repair loop makes before it reports that it did not
/// converge.  The source design leaves the iteration bound open; stopping
/// with an explicit error preserves every reported outcome below.
pub const MAX_REPAIR_PASSES: usize = 4096;

/// The most repairs one defect scan runs before it reports that it did not
/// converge.
pub const MAX_SCAN_PASSES: usize = 4096;

/// How a verification attempt fails: a terminal defect the caller must
/// resolve, or a broken closed-world assumption that must surface loudly.
#[derive(Debug)]
pub enum VerifyFailure {
    /// A located defect that external input must fill.
    TerminalDefect { pointer: String },
    /// The decoder produced a shape the classifier does not recognize, or a
    /// fixed literal other than the one known required constant.
    FatalContract { description: String },
}

/// One step of the repair loop after a defect was classified.
#[derive(Debug)]
pub enum RepairStep {
    /// A patch was merged; decode again.
    Retry,
    /// The loop stops with this failure.
    Halt(VerifyFailure),
}

/// The state of a repair loop between decode attempts.
pub enum RepairStateV {
    Running(JsonV),
    DoneOk(JsonV),
    DoneErr(JsonV, Seq<char>),
    DoneFatal(JsonV, Seq<char>),
}

/// The one fixed literal the repair loop knows how to supply.
pub open spec fn required_context() -> Seq<char> {
    "https://www.w3.org/ns/credentials/v2"@
}

/// The placeholder a recoverable defect is patched with.
pub open spec fn patch_leaf_of(df: DefectV) -> JsonV {
    match df {
        DefectV::MissingField { .. } => JsonV::Obj(Seq::empty()),
        DefectV::UntaggedUnionMismatch { .. } => JsonV::Str(Seq::empty()),
        DefectV::InvalidFormattedString { .. } => JsonV::Str("2010-01-01T00:00:00Z"@),
        DefectV::InvalidFixedValue { pointer: _, expected } => JsonV::Arr(seq![JsonV::Str(expected)]),
        DefectV::SequenceShapeMismatch { .. } => JsonV::Arr(seq![JsonV::Str("TEMP"@)]),
        _ => JsonV::Null,
    }
}

/// The description of a defect pointer that cannot be turned into a patch.
pub open spec fn bad_pointer_desc(ptr: Seq<char>) -> Seq<char> {
    "defect pointer did not resolve: "@ + ptr
}

/// The document with the scaffold for `ptr` around `leaf` merged in, if the
/// pointer parses and its indexes are representable.
pub open spec fn patched_doc(d: JsonV, ptr: Seq<char>, leaf: JsonV) -> Option<JsonV> {
    match parse_pointer_spec(ptr) {
        Some(segs) => if path_representable(segs) {
            Some(merge_spec(d, scaffold_spec(segs, leaf)))
        } else {
            None
        },
        None => None,
    }
}

/// A recoverable patch: merge and decode again, or stop when the pointer
/// cannot be patched.
pub open spec fn retry_patch(d: JsonV, ptr: Seq<char>, leaf: JsonV) -> RepairStateV {
    match patched_doc(d, ptr, leaf) {
        Some(d2) => RepairStateV::Running(d2),
        None => RepairStateV::DoneFatal(d, bad_pointer_desc(ptr)),
    }
}

/// What one classified defect does to the repair loop: the action table of
/// the conformance repair design.
pub open spec fn defect_action(d: JsonV, df: DefectV) -> RepairStateV {
    match df {
        DefectV::MissingField { pointer } => retry_patch(d, pointer, patch_leaf_of(df)),
        DefectV::UntaggedUnionMismatch { pointer } => retry_patch(d, pointer, patch_leaf_of(df)),
        DefectV::InvalidFormattedString { pointer } => retry_patch(d, pointer, patch_leaf_of(df)),
        DefectV::InvalidFixedValue { pointer, expected } => if expected == required_context() {
            retry_patch(d, pointer, patch_leaf_of(df))
        } else {
            RepairStateV::DoneFatal(d, "Expected value: "@ + expected)
        },
        DefectV::SequenceShapeMismatch { pointer } => match patched_doc(d, pointer, patch_leaf_of(df)) {
            Some(d2) => RepairStateV::DoneErr(d2, pointer + "/0"@),
            None => RepairStateV::DoneFatal(d, bad_pointer_desc(pointer)),
        },
        DefectV::TypeMismatch { pointer } => RepairStateV::DoneErr(d, pointer),
        DefectV::UnrecognizedFailure { description } => RepairStateV::DoneFatal(
            d,
            "Unknown error: "@ + description,
        ),
    }
}

/// One pass of the repair loop: decode, and on failure act on the first
/// defect.  A stopped loop stays stopped.
pub open spec fn repair_advance(st: RepairStateV, s: Schema) -> RepairStateV {
    match st {
        RepairStateV::Running(d) => match decode_spec(d, s, ""@) {
            None => RepairStateV::DoneOk(d),
            Some(df) => defect_action(d, df),
        },
        _ => st,
    }
}

/// The repair loop's state after `n` passes from document `d0`.
pub open spec fn repair_run(d0: JsonV, s: Schema, n: nat) -> RepairStateV
    decreases n,
{
    if n == 0 {
        RepairStateV::Running(d0)
    } else {
        repair_advance(repair_run(d0, s, (n - 1) as nat), s)
    }
}

/// While a conforming document's loop is still running, it has run zero
/// passes and the document is untouched.
proof fn lemma_conforming_runs_zero(d0: JsonV, s: Schema, n: nat, cur: JsonV)
    requires
        repair_run(d0, s, n) == RepairStateV::Running(cur),
        decode_spec(d0, s, ""@) is None,
    ensures
        n == 0 && cur == d0,
{
    assert(repair_run(d0, s, 0) == RepairStateV::Running(d0));
    assert(repair_run(d0, s, 1) == repair_advance(repair_run(d0, s, 0), s));
    if n > 0 {
        lemma_repair_absorb(d0, s, 1, n);
    }
}

/// A stopped repair loop never moves again.
pub proof fn lemma_repair_absorb(d0: JsonV, s: Schema, n: nat, m: nat)
    requires
        n <= m,
        !(repair_run(d0, s, n) is Running),
    ensures
        repair_run(d0, s, m) == repair_run(d0, s, n),
    decreases m - n,
{
    if m > n {
        lemma_repair_absorb(d0, s, n, (m - 1) as nat);
    }
}

/// Single defect per pass: one pass of the repair loop patches the document
/// with at most one scaffold merge — exactly one when it retries or when it
/// reports the repaired sequence location, and none when it stops.
pub proof fn lemma_single_defect_per_pass(d: JsonV, s: Schema)
    ensures
        match repair_advance(RepairStateV::Running(d), s) {
            RepairStateV::Running(d2) => exists|segs: Seq<PathSegV>, leaf: JsonV|
                d2 == merge_spec(d, #[trigger] scaffold_spec(segs, leaf)),
            RepairStateV::DoneErr(d2, _) => d2 == d || exists|segs: Seq<PathSegV>, leaf: JsonV|
                d2 == merge_spec(d, #[trigger] scaffold_spec(segs, leaf)),
            RepairStateV::DoneOk(d2) => d2 == d,
            RepairStateV::DoneFatal(d2, _) => d2 == d,
        },
{
    match decode_spec(d, s, ""@) {
        None => {},
        Some(df) => {
            match df {
                DefectV::MissingField { pointer } => {
                    lemma_retry_patch_shape(d, pointer, patch_leaf_of(df));
                },
                DefectV::UntaggedUnionMismatch { pointer } => {
                    lemma_retry_patch_shape(d, pointer, patch_leaf_of(df));
                },
                DefectV::InvalidFormattedString { pointer } => {
                    lemma_retry_patch_shape(d, pointer, patch_leaf_of(df));
                },
                DefectV::InvalidFixedValue { pointer, expected } => {
                    if expected == required_context() {
                        lemma_retry_patch_shape(d, pointer, patch_leaf_of(df));
                    }
                },
                DefectV::SequenceShapeMismatch { pointer } => {
                    match patched_doc(d, pointer, patch_leaf_of(df)) {
                        Some(_) => {
                            let segs = parse_pointer_spec(pointer)->Some_0;
                            let leaf = patch_leaf_of(df);
                            assert(defect_action(d, df)->DoneErr_0 == merge_spec(
                                d,
                                scaffold_spec(segs, leaf),
                            ));
                        },
                        None => {},
                    }
                },
                _ => {},
            }
        },
    }
}

proof fn lemma_retry_patch_shape(d: JsonV, ptr: Seq<char>, leaf: JsonV)
    ensures
        retry_patch(d, ptr, leaf) matches RepairStateV::Running(d2) ==> exists|
            segs: Seq<PathSegV>,
            l: JsonV,
        | d2 == merge_spec(d, #[trigger] scaffold_spec(segs, l)),
{
    match patched_doc(d, ptr, leaf) {
        Some(d2) => {
            let segs = parse_pointer_spec(ptr)->Some_0;
            assert(d2 == merge_spec(d, scaffold_spec(segs, leaf)));
        },
        None => {},
    }
}

/// The state of a defect scan: the document under repair, and the pointers
/// of the defects found so far, in discovery order.
pub enum ScanStateV {
    Scanning(JsonV, Seq<Seq<char>>),
    Finished(JsonV, Seq<Seq<char>>),
    Failed(JsonV, Seq<char>, Seq<Seq<char>>),
}

/// What the scan does when a repair pass comes to rest: success finishes
/// the scan; a terminal defect is recorded and a sentinel marker is written
/// at its pointer; an unwritable pointer finishes the scan with what was
/// collected; a fatal pass fails the scan.
pub open spec fn exit_transition(r: RepairStateV, acc: Seq<Seq<char>>) -> ScanStateV {
    match r {
        RepairStateV::Running(d2) => ScanStateV::Scanning(d2, acc),
        RepairStateV::DoneOk(d2) => ScanStateV::Finished(d2, acc),
        RepairStateV::DoneErr(d2, ptr) => match set_at_pointer_spec(d2, ptr, JsonV::Str("TEMP"@)) {
            Some(d3) => ScanStateV::Scanning(d3, acc.push(ptr)),
            None => ScanStateV::Finished(d2, acc),
        },
        RepairStateV::DoneFatal(d2, desc) => ScanStateV::Failed(d2, desc, acc),
    }
}

/// One step of the defect scan: one repair pass, with its outcome folded
/// into the scan.  A scan at rest stays at rest.
pub open spec fn scan_advance(st: ScanStateV, s: Schema) -> ScanStateV {
    match st {
        ScanStateV::Scanning(d, acc) => exit_transition(repair_advance(RepairStateV::Running(d), s), acc),
        _ => st,
    }
}

/// The defect scan's state after `n` steps.
pub open spec fn scan_run(st0: ScanStateV, s: Schema, n: nat) -> ScanStateV
    decreases n,
{
    if n == 0 {
        st0
    } else {
        scan_advance(scan_run(st0, s, (n - 1) as nat), s)
    }
}

/// A scan at rest never moves again.
pub proof fn lemma_scan_absorb(st0: ScanStateV, s: Schema, n: nat, m: nat)
    requires
        n <= m,
        !(scan_run(st0, s, n) is Scanning),
    ensures
        scan_run(st0, s, m) == scan_run(st0, s, n),
    decreases m - n,
{
    if m > n {
        lemma_scan_absorb(st0, s, n, (m - 1) as nat);
    }
}

/// Defect determinism: two scans from the same starting state against the
/// same schema that both come to rest agree exactly — the same ordered
/// defect list and the same repaired document.
pub proof fn lemma_defect_determinism(st0: ScanStateV, s: Schema, n1: nat, n2: nat)
    requires
        !(scan_run(st0, s, n1) is Scanning),
        !(scan_run(st0, s, n2) is Scanning),
    ensures
        scan_run(st0, s, n1) == scan_run(st0, s, n2),
{
    if n1 <= n2 {
        lemma_scan_absorb(st0, s, n1, n2);
    } else {
        lemma_scan_absorb(st0, s, n2, n1);
    }
}

/// While the repair loop is still running, the scan tracks its document and
/// records nothing.
proof fn lemma_scan_tracks_running(d: JsonV, acc: Seq<Seq<char>>, s: Schema, k: nat)
    ensures
        repair_run(d, s, k) matches RepairStateV::Running(dk) ==> scan_run(
            ScanStateV::Scanning(d, acc),
            s,
            k,
        ) == ScanStateV::Scanning(dk, acc),
    decreases k,
{
    if k > 0 {
        lemma_scan_tracks_running(d, acc, s, (k - 1) as nat);
        if !(repair_run(d, s, (k - 1) as nat) is Running) {
            lemma_repair_absorb(d, s, (k - 1) as nat, k);
        }
    }
}

/// When the repair loop comes to rest, some prefix of the scan makes the
/// matching recording step.
proof fn lemma_scan_exit(d: JsonV, acc: Seq<Seq<char>>, s: Schema, k: nat)
    requires
        !(repair_run(d, s, k) is Running),
    ensures
        exists|j: nat| j <= k && #[trigger] scan_run(ScanStateV::Scanning(d, acc), s, j)
            == exit_transition(repair_run(d, s, k), acc),
    decreases k,
{
    let km1 = (k - 1) as nat;
    if repair_run(d, s, km1) is Running {
        lemma_scan_tracks_running(d, acc, s, km1);
        assert(scan_run(ScanStateV::Scanning(d, acc), s, k) == exit_transition(repair_run(d, s, k), acc));
    } else {
        lemma_repair_absorb(d, s, km1, k);
        lemma_scan_exit(d, acc, s, km1);
    }
}

/// Running a scan in two legs runs it once.
proof fn lemma_scan_run_compose(st0: ScanStateV, s: Schema, a: nat, b: nat)
    ensures
        scan_run(st0, s, a + b) == scan_run(scan_run(st0, s, a), s, b),
    decreases b,
{
    if b > 0 {
        lemma_scan_run_compose(st0, s, a, (b - 1) as nat);
    }
}

/// The models of a list of pointer strings, in order.
pub open spec fn strings_view(v: Seq<String>) -> Seq<Seq<char>> {
    Seq::new(v.len(), |i: int| v[i]@)
}

/// Acts on one classified defect: merges the placeholder patch the action
/// table prescribes, or halts the loop with the failure it prescribes.
pub fn apply_defect(document: &mut Json, defect: Defect) -> (step: RepairStep)
    ensures
        match step {
            RepairStep::Retry => defect_action(old(document)@, defect@) == RepairStateV::Running(
                final(document)@,
            ),
            RepairStep::Halt(f) => match f {
                VerifyFailure::TerminalDefect { pointer } => defect_action(old(document)@, defect@)
                    == RepairStateV::DoneErr(final(document)@, pointer@),
                VerifyFailure::FatalContract { description } => defect_action(
                    old(document)@,
                    defect@,
                ) == RepairStateV::DoneFatal(final(document)@, description@) && final(document)@
                    == old(document)@,
            },
        },
{
    let ghost dfv = defect@;
    match defect {
        Defect::MissingField { pointer } => {
            let leaf = Json::Obj(Vec::new());
            proof {
                assert(leaf@->Obj_0 =~= Seq::<(Seq<char>, JsonV)>::empty());
            }
            patch_and_retry(document, pointer, leaf)
        },
        Defect::UntaggedUnionMismatch { pointer } => {
            patch_and_retry(document, pointer, Json::Str(String::new()))
        },
        Defect::InvalidFormattedString { pointer } => {
            patch_and_retry(document, pointer, Json::Str(String::from_str("2010-01-01T00:00:00Z")))
        },
        Defect::InvalidFixedValue { pointer, expected } => {
            if str_eq(expected.as_str(), "https://www.w3.org/ns/credentials/v2") {
                let ghost expv = expected@;
                let leaf = Json::Arr(vec![Json::Str(expected)]);
                proof {
                    assert(leaf->Arr_0@.len() == 1);
                    assert(json_view(leaf->Arr_0@[0]) == JsonV::Str(expv));
                    assert(leaf@->Arr_0[0] == JsonV::Str(expv));
                    assert(leaf@->Arr_0 =~= seq![JsonV::Str(expv)]);
                }
                patch_and_retry(document, pointer, leaf)
            } else {
                RepairStep::Halt(VerifyFailure::FatalContract {
                    description: concat2("Expected value: ", expected.as_str()),
                })
            }
        },
        Defect::SequenceShapeMismatch { pointer } => {
            let leaf = Json::Arr(vec![Json::Str(String::from_str("TEMP"))]);
            proof {
                assert(leaf->Arr_0@.len() == 1);
                assert(json_view(leaf->Arr_0@[0]) == JsonV::Str("TEMP"@));
                assert(leaf@->Arr_0[0] == JsonV::Str("TEMP"@));
                assert(leaf@->Arr_0 =~= seq![JsonV::Str("TEMP"@)]);
                assert(leaf@ == patch_leaf_of(dfv));
            }
            match StructuralPath::parse(pointer.as_str()) {
                None => RepairStep::Halt(VerifyFailure::FatalContract {
                    description: concat2("defect pointer did not resolve: ", pointer.as_str()),
                }),
                Some(path) => match path.construct_scaffold(leaf) {
                    None => RepairStep::Halt(VerifyFailure::FatalContract {
                        description: concat2("defect pointer did not resolve: ", pointer.as_str()),
                    }),
                    Some(sc) => {
                        merge(document, sc);
                        RepairStep::Halt(VerifyFailure::TerminalDefect {
                            pointer: concat2(pointer.as_str(), "/0"),
                        })
                    },
                },
            }
        },
        Defect::TypeMismatch { pointer } => {
            RepairStep::Halt(VerifyFailure::TerminalDefect { pointer })
        },
        Defect::UnrecognizedFailure { description } => {
            RepairStep::Halt(VerifyFailure::FatalContract {
                description: concat2("Unknown error: ", description.as_str()),
            })
        },
    }
}

/// Builds the scaffold for `pointer` around `leaf` and merges it, so the
/// loop can decode again.
fn patch_and_retry(document: &mut Json, pointer: String, leaf: Json) -> (step: RepairStep)
    ensures
        match step {
            RepairStep::Retry => retry_patch(old(document)@, pointer@, leaf@) == RepairStateV::Running(
                final(document)@,
            ),
            RepairStep::Halt(f) => f matches VerifyFailure::FatalContract { description }
                && retry_patch(old(document)@, pointer@, leaf@) == RepairStateV::DoneFatal(
                final(document)@,
                description@,
            ) && final(document)@ == old(document)@,
        },
{
    match StructuralPath::parse(pointer.as_str()) {
        None => RepairStep::Halt(VerifyFailure::FatalContract {
            description: concat2("defect pointer did not resolve: ", pointer.as_str()),
        }),
        Some(path) => match path.construct_scaffold(leaf) {
            None => RepairStep::Halt(VerifyFailure::FatalContract {
                description: concat2("defect pointer did not resolve: ", pointer.as_str()),
            }),
            Some(sc) => {
                merge(document, sc);
                RepairStep::Retry
            },
        },
    }
}

/// Attempts a structural decode of `document` against `schema`; on failure
/// classifies the first defect and patches just enough to retry.  Returns
/// the conforming document, or the terminal defect external input must
/// resolve, or the broken-contract failure that must surface loudly.
///
/// Repair termination: a document that already satisfies the schema is
/// returned on the first pass, with no patch applied.
#[verifier::loop_isolation(false)]
pub fn verify(document: &mut Json, schema: &Schema) -> (r: Result<Json, VerifyFailure>)
    ensures
        decode_spec(old(document)@, *schema, ""@) is None ==> (r matches Ok(v) && v@ == old(document)@
            && final(document)@ == old(document)@),
        match r {
            Ok(v) => v@ == final(document)@ && exists|n: nat| #[trigger] repair_run(
                old(document)@,
                *schema,
                n,
            ) == RepairStateV::DoneOk(final(document)@),
            Err(f) => match f {
                VerifyFailure::TerminalDefect { pointer } => exists|n: nat| #[trigger] repair_run(
                    old(document)@,
                    *schema,
                    n,
                ) == RepairStateV::DoneErr(final(document)@, pointer@),
                VerifyFailure::FatalContract { description } => (exists|n: nat| #[trigger] repair_run(
                    old(document)@,
                    *schema,
                    n,
                ) == RepairStateV::DoneFatal(final(document)@, description@)) || repair_run(
                    old(document)@,
                    *schema,
                    MAX_REPAIR_PASSES as nat,
                ) == RepairStateV::Running(final(document)@),
            },
        },
{
    let ghost d0 = document@;
    let ghost mut n: nat = 0;
    let mut fuel: usize = MAX_REPAIR_PASSES;
    while fuel > 0
        invariant
            n + fuel == MAX_REPAIR_PASSES as nat,
            repair_run(d0, *schema, n) == RepairStateV::Running(document@),
        decreases fuel,
    {
        let ghost doc_head = document@;
        match decode(document, schema, "") {
            None => {
                proof {
                    if decode_spec(d0, *schema, ""@) is None {
                        lemma_conforming_runs_zero(d0, *schema, n, document@);
                    }
                    n = n + 1;
                    assert(repair_run(d0, *schema, n) == RepairStateV::DoneOk(document@));
                }
                let out = document.deep_clone();
                return Ok(out);
            },
            Some(df) => {
                match apply_defect(document, df) {
                    RepairStep::Retry => {
                        proof {
                            n = n + 1;
                        }
                        fuel = fuel - 1;
                    },
                    RepairStep::Halt(f) => {
                        proof {
                            if decode_spec(d0, *schema, ""@) is None {
                                lemma_conforming_runs_zero(d0, *schema, n, doc_head);
                            }
                            n = n + 1;
                        }
                        return Err(f);
                    },
                }
            },
        }
    }
    proof {
        if decode_spec(d0, *schema, ""@) is None {
            lemma_conforming_runs_zero(d0, *schema, n, document@);
        }
    }
    Err(VerifyFailure::FatalContract {
        description: String::from_str("the repair loop did not finish within the pass bound"),
    })
}

/// Drives the repair loop repeatedly over `document`: each terminal defect
/// is recorded in order and a sentinel marker is written at its pointer, so
/// the next pass can move past it.  The scan ends when a pass succeeds;
/// when a recorded pointer cannot be written, the pointers collected so far
/// are returned; a fatal pass surfaces its description.
#[verifier::loop_isolation(false)]
pub fn get_missing_data_fields(document: Json, schema: &Schema) -> (r: Result<Vec<String>, String>)
    ensures
        match r {
            Ok(list) => exists|n: nat| (#[trigger] scan_run(
                ScanStateV::Scanning(document@, Seq::empty()),
                *schema,
                n,
            )) matches ScanStateV::Finished(df, lst) && lst == strings_view(list@),
            Err(desc) => (exists|n: nat| (#[trigger] scan_run(
                ScanStateV::Scanning(document@, Seq::empty()),
                *schema,
                n,
            )) matches ScanStateV::Failed(df, dsc, acc) && dsc == desc@) || (exists|n: nat|
                (#[trigger] scan_run(ScanStateV::Scanning(document@, Seq::empty()), *schema, n))
                    matches ScanStateV::Scanning(d2, acc) && repair_run(
                    d2,
                    *schema,
                    MAX_REPAIR_PASSES as nat,
                ) is Running) || (desc@ == "the defect scan did not finish within the pass bound"@
                && (scan_run(
                ScanStateV::Scanning(document@, Seq::empty()),
                *schema,
                MAX_SCAN_PASSES as nat,
            ) is Scanning)),
        },
{
    let ghost init = ScanStateV::Scanning(document@, Seq::empty());
    let mut doc = document;
    let mut found: Vec<String> = Vec::new();
    let ghost mut m: nat = 0;
    let mut fuel: usize = MAX_SCAN_PASSES;
    proof {
        assert(strings_view(found@) =~= Seq::<Seq<char>>::empty());
    }
    while fuel > 0
        invariant
            scan_run(init, *schema, m) == ScanStateV::Scanning(doc@, strings_view(found@)),
            m + fuel >= MAX_SCAN_PASSES as nat,
        decreases fuel,
    {
        let ghost dcur = doc@;
        let ghost accv = strings_view(found@);
        match verify(&mut doc, schema) {
            Ok(_) => {
                proof {
                    let k = choose|k: nat| #[trigger] repair_run(dcur, *schema, k)
                        == RepairStateV::DoneOk(doc@);
                    lemma_scan_exit(dcur, accv, *schema, k);
                    let j = choose|j: nat| j <= k && #[trigger] scan_run(
                        ScanStateV::Scanning(dcur, accv),
                        *schema,
                        j,
                    ) == exit_transition(repair_run(dcur, *schema, k), accv);
                    lemma_scan_run_compose(init, *schema, m, j);
                    m = m + j;
                    assert(scan_run(init, *schema, m) == ScanStateV::Finished(doc@, accv));
                }
                return Ok(found);
            },
            Err(failure) => match failure {
                VerifyFailure::TerminalDefect { pointer } => {
                    let ghost d2 = doc@;
                    let ghost mprev = m;
                    proof {
                        let k = choose|k: nat| #[trigger] repair_run(dcur, *schema, k)
                            == RepairStateV::DoneErr(doc@, pointer@);
                        lemma_scan_exit(dcur, accv, *schema, k);
                        let j = choose|j: nat| j <= k && #[trigger] scan_run(
                            ScanStateV::Scanning(dcur, accv),
                            *schema,
                            j,
                        ) == exit_transition(repair_run(dcur, *schema, k), accv);
                        lemma_scan_run_compose(init, *schema, m, j);
                        m = m + j;
                        if set_at_pointer_spec(doc@, pointer@, JsonV::Str("TEMP"@)) is Some {
                            // The recording step appends a pointer, so it cannot
                            // be the empty run of steps.
                            if j == 0 {
                                assert(scan_run(ScanStateV::Scanning(dcur, accv), *schema, 0)
                                    == ScanStateV::Scanning(dcur, accv));
                                assert(accv.push(pointer@).len() == accv.len() + 1);
                                assert(false);
                            }
                            assert(m >= mprev + 1);
                        }
                    }
                    let sentinel = Json::Str(String::from_str("TEMP"));
                    let wrote = write_at_pointer(&mut doc, pointer.as_str(), sentinel);
                    if wrote {
                        found.push(pointer);
                        proof {
                            assert(strings_view(found@) =~= accv.push(found@[found@.len() - 1]@));
                            assert(scan_run(init, *schema, m) == ScanStateV::Scanning(
                                doc@,
                                strings_view(found@),
                            ));
                        }
                        fuel = fuel - 1;
                    } else {
                        proof {
                            assert(scan_run(init, *schema, m) == ScanStateV::Finished(doc@, accv));
                        }
                        return Ok(found);
                    }
                },
                VerifyFailure::FatalContract { description } => {
                    proof {
                        if exists|k: nat| #[trigger] repair_run(dcur, *schema, k)
                            == RepairStateV::DoneFatal(doc@, description@) {
                            let k = choose|k: nat| #[trigger] repair_run(dcur, *schema, k)
                                == RepairStateV::DoneFatal(doc@, description@);
                            lemma_scan_exit(dcur, accv, *schema, k);
                            let j = choose|j: nat| j <= k && #[trigger] scan_run(
                                ScanStateV::Scanning(dcur, accv),
                                *schema,
                                j,
                            ) == exit_transition(repair_run(dcur, *schema, k), accv);
                            lemma_scan_run_compose(init, *schema, m, j);
                            assert(scan_run(init, *schema, m + j) == ScanStateV::Failed(
                                doc@,
                                description@,
                                accv,
                            ));
                        }
                    }
                    return Err(description);
                },
            },
        }
    }
    proof {
        if !(scan_run(init, *schema, MAX_SCAN_PASSES as nat) is Scanning) {
            lemma_scan_absorb(init, *schema, MAX_SCAN_PASSES as nat, m);
        }
    }
    Err(String::from_str("the defect scan did not finish within the pass bound"))
}

} // verus!
