//! The pipeline orchestrator: an ordered list of transform stages, driven
//! forward over a payload to encode and in exactly the reverse order to
//! decode.  Any stage failure aborts the run at once, wrapped with the
//! 1-based step index (in the traversal direction used) and the stage
//! name.
use crate::error::PipelineError;
use crate::naming::{
    decode_artifact_name, decode_artifact_name_spec, encode_artifact_name,
    encode_artifact_name_spec,
};
use crate::transform::{
    lemma_stage_round_trip, stage_decode_ok, stage_decode_rel, stage_encode_ok, stage_encode_rel,
    stage_extension_spec, stage_name_spec, Transform,
};
use vstd::prelude::*;
use vstd::string::StringExecFns;

verus! {

/// A possible outcome of running the stages in forward order: `output` is
/// reachable from `input` by applying, stage by stage, an encode result
/// permitted by each stage's contract.
pub open spec fn pipeline_encode_rel(ts: Seq<Transform>, input: Seq<u8>, output: Seq<u8>) -> bool
    decreases ts.len(),
{
    if ts.len() == 0 {
        output == input
    } else {
        exists|mid: Seq<u8>|
            #[trigger] stage_encode_rel(ts[0], input, mid) && pipeline_encode_rel(
                ts.drop_first(),
                mid,
                output,
            )
    }
}

/// A possible outcome of running the stages in exactly the reverse
/// order, decoding: the defining recursion peels the last stage first,
/// which is the order the decoder must use.
pub open spec fn pipeline_decode_rel(ts: Seq<Transform>, input: Seq<u8>, output: Seq<u8>) -> bool
    decreases ts.len(),
{
    if ts.len() == 0 {
        output == input
    } else {
        exists|mid: Seq<u8>|
            #[trigger] stage_decode_rel(ts.last(), input, mid) && pipeline_decode_rel(
                ts.drop_last(),
                mid,
                output,
            )
    }
}

/// Unrolls the forward relation at its far end: running `ts` and then one
/// more stage is running `ts.push(t)`.
pub proof fn lemma_encode_rel_snoc(
    ts: Seq<Transform>,
    t: Transform,
    input: Seq<u8>,
    mid: Seq<u8>,
    output: Seq<u8>,
)
    requires
        pipeline_encode_rel(ts, input, mid),
        stage_encode_rel(t, mid, output),
    ensures
        pipeline_encode_rel(ts.push(t), input, output),
    decreases ts.len(),
{
    if ts.len() == 0 {
        assert(ts.push(t)[0] == t);
        assert(ts.push(t).drop_first() =~= Seq::<Transform>::empty());
        assert(pipeline_encode_rel(ts.push(t), input, output)) by {
            assert(stage_encode_rel(ts.push(t)[0], input, output));
            assert(pipeline_encode_rel(ts.push(t).drop_first(), output, output));
        }
    } else {
        let m0 = choose|m0: Seq<u8>|
            #[trigger] stage_encode_rel(ts[0], input, m0) && pipeline_encode_rel(
                ts.drop_first(),
                m0,
                mid,
            );
        lemma_encode_rel_snoc(ts.drop_first(), t, m0, mid, output);
        assert(ts.push(t).drop_first() =~= ts.drop_first().push(t));
        assert(ts.push(t)[0] == ts[0]);
        assert(stage_encode_rel(ts.push(t)[0], input, m0));
    }
}

/// Splits the forward relation at its far end: a run of `ts.push(t)`
/// passes through some intermediate buffer after `ts`.
pub proof fn lemma_encode_rel_unsnoc(ts: Seq<Transform>, t: Transform, input: Seq<u8>, output: Seq<u8>)
    requires
        pipeline_encode_rel(ts.push(t), input, output),
    ensures
        exists|mid: Seq<u8>|
            #[trigger] pipeline_encode_rel(ts, input, mid) && stage_encode_rel(t, mid, output),
    decreases ts.len(),
{
    if ts.len() == 0 {
        assert(ts.push(t)[0] == t);
        assert(ts.push(t).drop_first() =~= Seq::<Transform>::empty());
        let m = choose|m: Seq<u8>|
            #[trigger] stage_encode_rel(ts.push(t)[0], input, m) && pipeline_encode_rel(
                ts.push(t).drop_first(),
                m,
                output,
            );
        assert(m == output);
        assert(pipeline_encode_rel(ts, input, input));
        assert(stage_encode_rel(t, input, output));
    } else {
        assert(ts.push(t)[0] == ts[0]);
        assert(ts.push(t).drop_first() =~= ts.drop_first().push(t));
        let m0 = choose|m0: Seq<u8>|
            #[trigger] stage_encode_rel(ts.push(t)[0], input, m0) && pipeline_encode_rel(
                ts.drop_first().push(t),
                m0,
                output,
            );
        lemma_encode_rel_unsnoc(ts.drop_first(), t, m0, output);
        let mid = choose|mid: Seq<u8>|
            #[trigger] pipeline_encode_rel(ts.drop_first(), m0, mid) && stage_encode_rel(
                t,
                mid,
                output,
            );
        assert(pipeline_encode_rel(ts, input, mid)) by {
            assert(stage_encode_rel(ts[0], input, m0));
        }
    }
}

/// Unrolls the reverse relation at its near end: undoing the stages of
/// `seq![t] + ts` undoes those of `ts` first (in reverse), then `t`.
pub proof fn lemma_decode_rel_cons(
    ts: Seq<Transform>,
    t: Transform,
    input: Seq<u8>,
    mid: Seq<u8>,
    output: Seq<u8>,
)
    requires
        pipeline_decode_rel(ts, input, mid),
        stage_decode_rel(t, mid, output),
    ensures
        pipeline_decode_rel(seq![t] + ts, input, output),
    decreases ts.len(),
{
    let full = seq![t] + ts;
    if ts.len() == 0 {
        assert(mid == input);
        assert(full.last() == t);
        assert(full.drop_last() =~= Seq::<Transform>::empty());
        assert(stage_decode_rel(full.last(), input, output));
        assert(pipeline_decode_rel(full.drop_last(), output, output));
    } else {
        let m0 = choose|m0: Seq<u8>|
            #[trigger] stage_decode_rel(ts.last(), input, m0) && pipeline_decode_rel(
                ts.drop_last(),
                m0,
                mid,
            );
        lemma_decode_rel_cons(ts.drop_last(), t, m0, mid, output);
        assert(full.last() == ts.last());
        assert(full.drop_last() =~= seq![t] + ts.drop_last());
        assert(stage_decode_rel(full.last(), input, m0));
    }
}

/// Round trip of a whole pipeline that uses no image stage: whatever the
/// encode direction produced, the decode direction recovers the original
/// payload exactly.  (An image stage preserves the pixel plane rather
/// than the container bytes; its own relation states that guarantee.)
pub proof fn lemma_pipeline_round_trip(
    ts: Seq<Transform>,
    input: Seq<u8>,
    encoded: Seq<u8>,
    decoded: Seq<u8>,
)
    requires
        forall|k: int| 0 <= k < ts.len() ==> !(#[trigger] ts[k] matches Transform::Image(_)),
        pipeline_encode_rel(ts, input, encoded),
        pipeline_decode_rel(ts, encoded, decoded),
    ensures
        decoded == input,
    decreases ts.len(),
{
    if ts.len() == 0 {
    } else {
        let front = ts.drop_last();
        let t = ts.last();
        assert(ts =~= front.push(t));
        lemma_encode_rel_unsnoc(front, t, input, encoded);
        let mid_e = choose|mid: Seq<u8>|
            #[trigger] pipeline_encode_rel(front, input, mid) && stage_encode_rel(t, mid, encoded);
        let mid_d = choose|mid: Seq<u8>|
            #[trigger] stage_decode_rel(ts.last(), encoded, mid) && pipeline_decode_rel(
                ts.drop_last(),
                mid,
                decoded,
            );
        assert(!(t matches Transform::Image(_)));
        lemma_stage_round_trip(t, mid_e, encoded, mid_d);
        assert(mid_d == mid_e);
        assert forall|k: int| 0 <= k < front.len() implies !(#[trigger] front[k]
            matches Transform::Image(_)) by {
            assert(front[k] == ts[k]);
        }
        lemma_pipeline_round_trip(front, input, mid_e, decoded);
    }
}

/// Every stage accepts whatever can reach it: the first stage owes
/// success on `input`, and every buffer its contract admits is in turn
/// accepted by the rest of the chain.  A forward run of such a pipeline
/// cannot fail.
pub open spec fn pipeline_encode_total(ts: Seq<Transform>, input: Seq<u8>) -> bool
    decreases ts.len(),
{
    ts.len() == 0 || {
        &&& stage_encode_ok(ts[0], input)
        &&& forall|mid: Seq<u8>|
            #[trigger] stage_encode_rel(ts[0], input, mid) ==> pipeline_encode_total(
                ts.drop_first(),
                mid,
            )
    }
}

/// Every stage accepts whatever can reach it in the reverse direction:
/// the last stage owes success on `input`, and every buffer its contract
/// admits is in turn accepted by the stages before it.  A reverse run of
/// such a pipeline cannot fail.
pub open spec fn pipeline_decode_total(ts: Seq<Transform>, input: Seq<u8>) -> bool
    decreases ts.len(),
{
    ts.len() == 0 || {
        &&& stage_decode_ok(ts.last(), input)
        &&& forall|mid: Seq<u8>|
            #[trigger] stage_decode_rel(ts.last(), input, mid) ==> pipeline_decode_total(
                ts.drop_last(),
                mid,
            )
    }
}

/// The stages before 1-based step `step` completed on `input`: some
/// buffer is reachable by running the first `step - 1` stages forward.
/// Opaque so that callers relate applications by their arguments; reveal
/// it to use the witness.
#[verifier::opaque]
pub open spec fn encode_prefix_reachable(ts: Seq<Transform>, input: Seq<u8>, step: int) -> bool {
    exists|mid: Seq<u8>| #[trigger] pipeline_encode_rel(ts.take(step - 1), input, mid)
}

/// The stages undone before 1-based reverse step `step` completed on
/// `input`: some buffer is reachable by undoing the last `step - 1`
/// stages.  Opaque so that callers relate applications by their
/// arguments; reveal it to use the witness.
#[verifier::opaque]
pub open spec fn decode_suffix_reachable(ts: Seq<Transform>, input: Seq<u8>, step: int) -> bool {
    exists|mid: Seq<u8>| #[trigger] pipeline_decode_rel(ts.skip(ts.len() - step + 1), input, mid)
}

/// What one pipeline run hands back: the final payload, the name the
/// final artifact should be written under, and — when intermediate
/// persistence is on — every stage's output with its artifact name, in
/// step order.
#[derive(Debug)]
pub struct PipelineRun {
    pub output: Vec<u8>,
    pub final_name: String,
    pub artifacts: Vec<(String, Vec<u8>)>,
}

/// An ordered list of transform stages with an intermediate-persistence
/// flag.  Built once, reused for both directions.
#[derive(Debug)]
pub struct Pipeline {
    pub transforms: Vec<Transform>,
    pub save_intermediates: bool,
}

/// Copies a byte buffer.
fn copy_bytes(v: &Vec<u8>) -> (r: Vec<u8>)
    ensures
        r@ == v@,
{
    let mut out: Vec<u8> = Vec::new();
    let mut i: usize = 0;
    while i < v.len()
        invariant
            i <= v@.len(),
            out@ == v@.take(i as int),
        decreases v@.len() - i,
    {
        let b = v[i];
        proof {
            assert(v@.take(i as int + 1) =~= v@.take(i as int).push(b));
        }
        out.push(b);
        i = i + 1;
    }
    proof {
        assert(v@.take(v@.len() as int) =~= v@);
    }
    out
}

impl Pipeline {
    /// An empty pipeline with intermediate persistence off.
    pub fn new() -> (p: Pipeline)
        ensures
            p.transforms@ == Seq::<Transform>::empty(),
            !p.save_intermediates,
    {
        let p = Pipeline { transforms: Vec::new(), save_intermediates: false };
        proof {
            assert(p.transforms@ =~= Seq::<Transform>::empty());
        }
        p
    }

    /// Appends a stage, preserving order.
    pub fn add(self, transform: Transform) -> (p: Pipeline)
        ensures
            p.transforms@ == self.transforms@.push(transform),
            p.save_intermediates == self.save_intermediates,
    {
        let mut p = self;
        p.transforms.push(transform);
        p
    }

    /// Switches intermediate persistence.
    pub fn save_intermediates(self, enable: bool) -> (p: Pipeline)
        ensures
            p.transforms@ == self.transforms@,
            p.save_intermediates == enable,
    {
        let mut p = self;
        p.save_intermediates = enable;
        p
    }

    /// Runs every stage's encoder in order over the payload.  On success
    /// the result is a possible forward run; when persistence is on, the
    /// artifacts list holds every stage's output under its deterministic
    /// name, and each listed buffer is itself a possible run of the
    /// pipeline's prefix.  A stage failure aborts at once, wrapped with
    /// the 1-based step index and stage name.
    #[verifier::loop_isolation(false)]
    pub fn encode(&self, data: Vec<u8>) -> (r: Result<PipelineRun, PipelineError>)
        ensures
            pipeline_encode_total(self.transforms@, data@) ==> r is Ok,
            r matches Ok(run) ==> pipeline_encode_rel(self.transforms@, data@, run.output@),
            r matches Ok(run) ==> run.final_name@ == final_encode_name_spec(self.transforms@),
            r matches Ok(run) ==> (self.save_intermediates ==> run.artifacts@.len()
                == self.transforms@.len() && forall|k: int|
                0 <= k < run.artifacts@.len() ==> (#[trigger] run.artifacts@[k]).0@
                    == encode_artifact_name_spec((k + 1) as nat, self.transforms@[k])
                    && pipeline_encode_rel(
                    self.transforms@.take(k + 1),
                    data@,
                    run.artifacts@[k].1@,
                )),
            r matches Ok(run) ==> (!self.save_intermediates ==> run.artifacts@.len() == 0),
            r matches Err(e) ==> (e matches PipelineError::Step { step, name, .. } && 1 <= step
                && step <= self.transforms@.len() && name@ == stage_name_spec(
                self.transforms@[step - 1],
            ) && encode_prefix_reachable(self.transforms@, data@, step as int)),
    {
        let ghost input = data@;
        let mut cur = data;
        let mut artifacts: Vec<(String, Vec<u8>)> = Vec::new();
        let n = self.transforms.len();
        let mut i: usize = 0;
        proof {
            assert(self.transforms@.take(0) =~= Seq::<Transform>::empty());
            assert(self.transforms@.skip(0) =~= self.transforms@);
        }
        while i < n
            invariant
                i <= n == self.transforms@.len(),
                pipeline_encode_rel(self.transforms@.take(i as int), input, cur@),
                pipeline_encode_total(self.transforms@, input) ==> pipeline_encode_total(
                    self.transforms@.skip(i as int),
                    cur@,
                ),
                self.save_intermediates ==> artifacts@.len() == i && forall|k: int|
                    0 <= k < i ==> (#[trigger] artifacts@[k]).0@ == encode_artifact_name_spec(
                        (k + 1) as nat,
                        self.transforms@[k],
                    ) && pipeline_encode_rel(self.transforms@.take(k + 1), input, artifacts@[k].1@),
                !self.save_intermediates ==> artifacts@.len() == 0,
            decreases n - i,
        {
            let t = &self.transforms[i];
            let ghost prev = cur@;
            proof {
                if pipeline_encode_total(self.transforms@, input) {
                    assert(self.transforms@.skip(i as int)[0] == self.transforms@[i as int]);
                    assert(stage_encode_ok(self.transforms@[i as int], prev));
                }
            }
            let stepped = t.encode(cur);
            cur = match stepped {
                Ok(v) => v,
                Err(e) => {
                    let err = PipelineError::Step {
                        step: i + 1,
                        name: String::from_str(t.name()),
                        source: Box::new(e),
                    };
                    proof {
                        assert(encode_prefix_reachable(self.transforms@, input, i as int + 1)) by {
                            reveal(encode_prefix_reachable);
                            assert(self.transforms@.take((i as int + 1) - 1)
                                =~= self.transforms@.take(i as int));
                            assert(pipeline_encode_rel(
                                self.transforms@.take((i as int + 1) - 1),
                                input,
                                prev,
                            ));
                        }
                    }
                    return Err(err);
                },
            };
            proof {
                lemma_encode_rel_snoc(
                    self.transforms@.take(i as int),
                    self.transforms@[i as int],
                    input,
                    prev,
                    cur@,
                );
                assert(self.transforms@.take(i as int + 1) =~= self.transforms@.take(
                    i as int,
                ).push(self.transforms@[i as int]));
                if pipeline_encode_total(self.transforms@, input) {
                    assert(stage_encode_rel(self.transforms@.skip(i as int)[0], prev, cur@));
                    assert(self.transforms@.skip(i as int).drop_first() =~= self.transforms@.skip(
                        i as int + 1,
                    ));
                }
            }
            if self.save_intermediates {
                let name = encode_artifact_name((i + 1) as u64, t);
                let snapshot = copy_bytes(&cur);
                artifacts.push((name, snapshot));
            }
            i = i + 1;
        }
        proof {
            assert(self.transforms@.take(n as int) =~= self.transforms@);
        }
        let final_name = final_encode_name(&self.transforms);
        Ok(PipelineRun { output: cur, final_name, artifacts })
    }

    /// Runs every stage's decoder in exactly the reverse of the stage
    /// order over the payload.  On success the result is a possible
    /// reverse run; when persistence is on, each undone stage's output is
    /// listed under its deterministic name, in traversal order.  A stage
    /// failure aborts at once, wrapped with the 1-based step index (in
    /// the reverse direction) and stage name.
    #[verifier::loop_isolation(false)]
    pub fn decode(&self, data: Vec<u8>, final_name_override: Option<String>) -> (r: Result<
        PipelineRun,
        PipelineError,
    >)
        ensures
            pipeline_decode_total(self.transforms@, data@) ==> r is Ok,
            r matches Ok(run) ==> pipeline_decode_rel(self.transforms@, data@, run.output@),
            r matches Ok(run) ==> run.final_name@ == match final_name_override {
                Option::Some(name) => name@,
                Option::None => "decrypted.png"@,
            },
            r matches Ok(run) ==> (self.save_intermediates ==> run.artifacts@.len()
                == self.transforms@.len() && forall|k: int|
                0 <= k < run.artifacts@.len() ==> (#[trigger] run.artifacts@[k]).0@
                    == decode_artifact_name_spec(
                    (self.transforms@.len() - k) as nat,
                    self.transforms@[self.transforms@.len() - 1 - k],
                    decode_ext_spec(self.transforms@, self.transforms@.len() - 1 - k),
                ) && pipeline_decode_rel(
                    self.transforms@.skip(self.transforms@.len() - 1 - k),
                    data@,
                    run.artifacts@[k].1@,
                )),
            r matches Ok(run) ==> (!self.save_intermediates ==> run.artifacts@.len() == 0),
            r matches Err(e) ==> (e matches PipelineError::Step { step, name, .. } && 1 <= step
                && step <= self.transforms@.len() && name@ == stage_name_spec(
                self.transforms@[self.transforms@.len() - step],
            ) && decode_suffix_reachable(self.transforms@, data@, step as int)),
    {
        let ghost input = data@;
        let ghost ts = self.transforms@;
        let mut cur = data;
        let mut artifacts: Vec<(String, Vec<u8>)> = Vec::new();
        let n = self.transforms.len();
        let mut i: usize = 0;
        proof {
            assert(ts.skip(n as int) =~= Seq::<Transform>::empty());
            assert(ts.take(n as int) =~= ts);
        }
        while i < n
            invariant
                i <= n == ts.len(),
                ts == self.transforms@,
                pipeline_decode_rel(ts.skip(n - i), input, cur@),
                pipeline_decode_total(ts, input) ==> pipeline_decode_total(ts.take(n - i), cur@),
                self.save_intermediates ==> artifacts@.len() == i && forall|k: int|
                    0 <= k < i ==> (#[trigger] artifacts@[k]).0@ == decode_artifact_name_spec(
                        (n - k) as nat,
                        ts[n - 1 - k],
                        decode_ext_spec(ts, n - 1 - k),
                    ) && pipeline_decode_rel(ts.skip(n - 1 - k), input, artifacts@[k].1@),
                !self.save_intermediates ==> artifacts@.len() == 0,
            decreases n - i,
        {
            let idx = n - 1 - i;
            let t = &self.transforms[idx];
            let ghost prev = cur@;
            proof {
                if pipeline_decode_total(ts, input) {
                    assert(ts.take(n - i).last() == ts[idx as int]);
                    assert(stage_decode_ok(ts[idx as int], prev));
                }
            }
            let stepped = t.decode(cur);
            cur = match stepped {
                Ok(v) => v,
                Err(e) => {
                    let err = PipelineError::Step {
                        step: i + 1,
                        name: String::from_str(t.name()),
                        source: Box::new(e),
                    };
                    proof {
                        assert(decode_suffix_reachable(ts, input, i as int + 1)) by {
                            reveal(decode_suffix_reachable);
                            assert(ts.skip(ts.len() - (i as int + 1) + 1) =~= ts.skip(n - i));
                            assert(pipeline_decode_rel(
                                ts.skip(ts.len() - (i as int + 1) + 1),
                                input,
                                prev,
                            ));
                        }
                    }
                    return Err(err);
                },
            };
            proof {
                lemma_decode_rel_cons(
                    ts.skip(n - i),
                    ts[idx as int],
                    input,
                    prev,
                    cur@,
                );
                assert(ts.skip(n - i - 1) =~= seq![ts[idx as int]] + ts.skip(n - i));
                if pipeline_decode_total(ts, input) {
                    assert(stage_decode_rel(ts.take(n - i).last(), prev, cur@));
                    assert(ts.take(n - i).drop_last() =~= ts.take(n - i - 1));
                }
            }
            if self.save_intermediates {
                // The artifact carries the extension the buffer now has:
                // the preceding forward stage's, or the raw-image
                // extension at the terminal step.
                let ext: &'static str = if idx > 0 {
                    self.transforms[idx - 1].extension()
                } else {
                    "png"
                };
                let name = decode_artifact_name((n - i) as u64, t, ext);
                let snapshot = copy_bytes(&cur);
                artifacts.push((name, snapshot));
            }
            i = i + 1;
        }
        proof {
            assert(ts.skip(0) =~= ts);
        }
        let final_name = match final_name_override {
            Some(name) => name,
            None => String::from_str("decrypted.png"),
        };
        Ok(PipelineRun { output: cur, final_name, artifacts })
    }
}

/// The extension an intermediate buffer carries after undoing the stage
/// at `idx`: the preceding forward stage's extension, or the raw-image
/// extension at the terminal step.
pub open spec fn decode_ext_spec(ts: Seq<Transform>, idx: int) -> Seq<char> {
    if idx > 0 {
        stage_extension_spec(ts[idx - 1])
    } else {
        "png"@
    }
}

/// The final encode artifact's name: `encrypted.` with the last stage's
/// extension, or the default extension for an empty pipeline.
pub open spec fn final_encode_name_spec(ts: Seq<Transform>) -> Seq<char> {
    "encrypted."@ + (if ts.len() == 0 {
        "bin"@
    } else {
        stage_extension_spec(ts.last())
    })
}

/// Builds the final encode artifact's name.
fn final_encode_name(ts: &Vec<Transform>) -> (r: String)
    ensures
        r@ == final_encode_name_spec(ts@),
{
    let mut s = String::from_str("encrypted.");
    if ts.len() == 0 {
        s.append("bin");
    } else {
        s.append(ts[ts.len() - 1].extension());
    }
    s
}

} // verus!
