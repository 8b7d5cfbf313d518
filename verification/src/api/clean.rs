//! Protecting the fields of a request in one session transaction: the
//! clean endpoint, and the policy test lab that restores what it protected.

use vstd::prelude::*;

use super::privacy::{collect_detections, detection_of, detections_view, merge_detections, merged_spec, total};
use crate::protocol::{DetectionCount, PolicyTestFieldResult, TextField};
use crate::streaming::restorer::strict_restoration;

verus! {

/// A protection pipeline of the `gaze` crate, held opaquely.
#[verifier::external_type_specification]
#[verifier::external_body]
pub struct ExPipeline(gaze::Pipeline);

/// Staging state of a `gaze` session, held opaquely.
#[verifier::external_type_specification]
#[verifier::external_body]
pub struct ExSessionTransaction<'a>(gaze::SessionTransaction<'a>);

/// A locale tag of the `gaze` crate, held opaquely.
#[verifier::external_type_specification]
#[verifier::external_body]
pub struct ExLocaleTag(gaze::LocaleTag);

/// Why protecting or restoring fields failed.
#[derive(Debug, Clone, Copy, PartialEq, Eq, Structural)]
pub enum FieldError {
    /// The pipeline refused a field, or the transaction did not commit.
    Protection,
    /// A protected field did not restore strictly.
    StrictRestore,
}

/// `gaze::Session::begin_transaction`: staging state captured from the
/// session's current generation. Nothing is stated of it.
#[verifier::external_body]
fn begin_transaction(session: &gaze::Session) -> gaze::SessionTransaction<'_> {
    session.begin_transaction()
}

/// `protected` is what strict protection of `original` gives
/// (`gaze::Pipeline::protect_text_transaction`): its detected values
/// replaced by owned tokens. Which pairs hold depends on the pipeline and
/// on what the transaction has staged.
pub uninterp spec fn strict_protection(original: Seq<char>, protected: Seq<char>) -> bool;

/// `gaze::Pipeline::protect_text_transaction` under
/// `ProtectionContext::strict` with the given locale chain and the default
/// dictionaries: a strict protection of `text`, which one depending on the
/// tokens the transaction has staged; a failure is `Protection`.
#[verifier::external_body]
fn protect_text(
    pipeline: &gaze::Pipeline,
    tx: &mut gaze::SessionTransaction<'_>,
    text: &str,
    locale_tags: &Vec<gaze::LocaleTag>,
) -> (r: Result<String, FieldError>)
    ensures
        r matches Err(e) ==> e == FieldError::Protection,
        r matches Ok(s) ==> strict_protection(text@, s@),
{
    let dictionaries = gaze::DictionaryBundle::default();
    match pipeline.protect_text_transaction(
        tx,
        text,
        gaze::ProtectionContext::strict(locale_tags, &dictionaries),
    ) {
        Ok(protected) => Ok(protected),
        Err(_) => Err(FieldError::Protection),
    }
}

/// `gaze::SessionTransaction::commit`: publishes the staged state unless
/// the session moved on since the transaction began, which depends on the
/// session; only that a failure is `Protection` is stated.
#[verifier::external_body]
fn commit_transaction(tx: gaze::SessionTransaction<'_>) -> (r: Result<(), FieldError>)
    ensures
        r matches Err(e) ==> e == FieldError::Protection,
{
    match tx.commit() {
        Ok(_) => Ok(()),
        Err(_) => Err(FieldError::Protection),
    }
}

/// `gaze::Session::restore_strict_text`: a strict restoration of `text`,
/// which one depending on the session's tokens; a failure is
/// `StrictRestore`.
#[verifier::external_body]
fn session_restore_text(session: &gaze::Session, text: &str) -> (r: Result<String, FieldError>)
    ensures
        r matches Err(e) ==> e == FieldError::StrictRestore,
        r matches Ok(s) ==> strict_restoration(text@, s@),
{
    match session.restore_strict_text(text) {
        Ok(restored) => Ok(restored),
        Err(_) => Err(FieldError::StrictRestore),
    }
}

/// The detections of the first `n` fields, one per field whose protected
/// text differs from its original and whose class can be guessed, in
/// field order.
pub open spec fn detections_upto(fields: Seq<TextField>, out: Seq<TextField>, n: int) -> Seq<
    (Seq<char>, u64),
>
    decreases n,
{
    if n <= 0 {
        Seq::empty()
    } else {
        let rest = detections_upto(fields, out, n - 1);
        match detection_of(fields[n - 1].text@, out[n - 1].text@) {
            Some(c) => rest.push((c, 1u64)),
            None => rest,
        }
    }
}

/// `out` holds one field per field of `fields`, in order, with its path
/// and a strict protection of its text.
pub open spec fn protected_fields(fields: Seq<TextField>, out: Seq<TextField>) -> bool {
    &&& out.len() == fields.len()
    &&& forall|i: int|
        0 <= i < fields.len() ==> (#[trigger] out[i]).path@ == fields[i].path@ && strict_protection(
            fields[i].text@,
            out[i].text@,
        )
}

proof fn lemma_total_of_ones(ds: Seq<(Seq<char>, u64)>, c: Seq<char>)
    ensures
        total(ds.push((c, 1u64))) == total(ds) + 1,
{
    assert(ds.push((c, 1u64)).drop_last() =~= ds);
}

/// Protects every field of a clean request in one transaction of
/// `session`, and counts what was detected per class. The transaction
/// commits only once every field was protected; a field the pipeline
/// refuses, or a failed commit, fails the whole request.
pub fn clean_fields(
    pipeline: &gaze::Pipeline,
    session: &gaze::Session,
    locale_tags: &Vec<gaze::LocaleTag>,
    fields: &Vec<TextField>,
) -> (r: Result<(Vec<TextField>, Vec<DetectionCount>), FieldError>)
    ensures
        r matches Err(e) ==> e == FieldError::Protection,
        r matches Ok((out, ds)) ==> protected_fields(fields@, out@) && detections_view(ds@) == merged_spec(
            detections_upto(fields@, out@, fields@.len() as int),
        ),
{
    let mut tx = begin_transaction(session);
    let mut out: Vec<TextField> = Vec::new();
    let mut found: Vec<DetectionCount> = Vec::new();
    let n = fields.len();
    for i in 0..n
        invariant
            n == fields@.len(),
            out@.len() == i,
            forall|j: int|
                0 <= j < i ==> (#[trigger] out@[j]).path@ == fields@[j].path@ && strict_protection(
                    fields@[j].text@,
                    out@[j].text@,
                ),
            detections_view(found@) == detections_upto(fields@, out@, i as int),
            total(detections_view(found@)) == found@.len(),
            found@.len() <= i,
    {
        let text = protect_text(pipeline, &mut tx, fields[i].text.as_str(), locale_tags)?;
        let ghost before = detections_view(found@);
        let ghost prev = out@;
        collect_detections(fields[i].text.as_str(), text.as_str(), &mut found);
        out.push(TextField { path: fields[i].path.clone(), text });
        proof {
            assert forall|m: int| 0 <= m <= i implies detections_upto(fields@, out@, m)
                == detections_upto(fields@, prev, m) by {
                lemma_upto_prefix(fields@, prev, out@, m);
            }
            match detection_of(fields@[i as int].text@, out@[i as int].text@) {
                Some(c) => {
                    lemma_total_of_ones(before, c);
                },
                None => {},
            }
        }
    }
    commit_transaction(tx)?;
    let merged = merge_detections(found);
    Ok((out, merged))
}

/// The detections of a prefix do not depend on the fields after it.
proof fn lemma_upto_prefix(fields: Seq<TextField>, a: Seq<TextField>, b: Seq<TextField>, m: int)
    requires
        0 <= m <= a.len() <= b.len(),
        forall|j: int| 0 <= j < a.len() ==> a[j] == b[j],
    ensures
        detections_upto(fields, a, m) == detections_upto(fields, b, m),
    decreases m,
{
    if m > 0 {
        lemma_upto_prefix(fields, a, b, m - 1);
    }
}

/// The policy test lab: protects every field in one transaction of a
/// fresh `session`, commits, then restores each protected text through the
/// session, and reports per field whether protection changed it and
/// whether the restore gave the original back.
pub fn test_fields(
    pipeline: &gaze::Pipeline,
    session: &gaze::Session,
    locale_tags: &Vec<gaze::LocaleTag>,
    fields: &Vec<TextField>,
) -> (r: Result<Vec<PolicyTestFieldResult>, FieldError>)
    ensures
        r matches Ok(rs) ==> {
            &&& rs@.len() == fields@.len()
            &&& forall|i: int|
                0 <= i < fields@.len() ==> {
                    &&& (#[trigger] rs@[i]).path@ == fields@[i].path@
                    &&& strict_protection(fields@[i].text@, rs@[i].protected@)
                    &&& strict_restoration(rs@[i].protected@, rs@[i].restored@)
                    &&& rs@[i].original_present == (rs@[i].protected@ != fields@[i].text@)
                    &&& rs@[i].round_trip_ok == (rs@[i].restored@ == fields@[i].text@)
                }
        },
{
    let mut tx = begin_transaction(session);
    let mut protected: Vec<String> = Vec::new();
    let n = fields.len();
    for i in 0..n
        invariant
            n == fields@.len(),
            protected@.len() == i,
            forall|j: int| 0 <= j < i ==> strict_protection(fields@[j].text@, #[trigger] protected@[j]@),
    {
        let text = protect_text(pipeline, &mut tx, fields[i].text.as_str(), locale_tags)?;
        protected.push(text);
    }
    commit_transaction(tx)?;
    let mut results: Vec<PolicyTestFieldResult> = Vec::new();
    for i in 0..n
        invariant
            n == fields@.len(),
            protected@.len() == n,
            forall|j: int| 0 <= j < n ==> strict_protection(fields@[j].text@, #[trigger] protected@[j]@),
            results@.len() == i,
            forall|j: int|
                0 <= j < i ==> {
                    &&& (#[trigger] results@[j]).path@ == fields@[j].path@
                    &&& strict_protection(fields@[j].text@, results@[j].protected@)
                    &&& strict_restoration(results@[j].protected@, results@[j].restored@)
                    &&& results@[j].original_present == (results@[j].protected@ != fields@[j].text@)
                    &&& results@[j].round_trip_ok == (results@[j].restored@ == fields@[j].text@)
                },
    {
        let restored = session_restore_text(session, protected[i].as_str())?;
        let result = PolicyTestFieldResult::new(
            fields[i].path.clone(),
            fields[i].text.clone(),
            protected[i].clone(),
            restored,
        );
        results.push(result);
    }
    Ok(results)
}

} // verus!
