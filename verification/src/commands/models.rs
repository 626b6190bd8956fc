//! The model commands' rules: one download per model at a time, and which
//! model files the language-model sidecar holds open.

use vstd::prelude::*;

use crate::support::AppError;
use crate::text::views;

verus! {

/// Whether a model's files are the sidecar's own (its runtime or its
/// weights), so the sidecar is stopped before they are replaced or
/// deleted.
pub open spec fn sidecar_model_spec(model_id: Seq<char>) -> bool {
    model_id == "llama-server"@ || model_id == "qwen3-4b"@
}

/// Whether the sidecar holds this model's files open.
pub fn holds_sidecar_files(model_id: &str) -> (r: bool)
    ensures
        r == sidecar_model_spec(model_id@),
{
    model_id.to_owned() == "llama-server".to_owned() || model_id.to_owned() == "qwen3-4b".to_owned()
}

/// Starts tracking a download: refused while the same model is already
/// downloading, else `model_id` joins the set in flight.
pub fn begin_download(in_flight: &mut Vec<String>, model_id: &str) -> (r: Result<(), AppError>)
    ensures
        views(old(in_flight)@).contains(model_id@) ==> (r matches Err(AppError::AlreadyDownloading)
            && final(in_flight)@ == old(in_flight)@),
        !views(old(in_flight)@).contains(model_id@) ==> (r is Ok && views(final(in_flight)@) == views(
            old(in_flight)@,
        ).push(model_id@)),
{
    let ghost before = views(in_flight@);
    let mut i: usize = 0;
    while i < in_flight.len()
        invariant
            i <= in_flight@.len(),
            before == views(in_flight@),
            forall|k: int| 0 <= k < i ==> before[k] != model_id@,
        decreases in_flight.len() - i,
    {
        proof {
            assert(before[i as int] == in_flight@[i as int]@);
        }
        if in_flight[i].as_str().to_owned() == model_id.to_owned() {
            proof {
                assert(before.contains(model_id@));
            }
            return Err(AppError::AlreadyDownloading);
        }
        i = i + 1;
    }
    in_flight.push(model_id.to_owned());
    proof {
        assert(views(in_flight@) =~= before.push(model_id@));
    }
    Ok(())
}

/// The set in flight without `model_id`.
pub open spec fn without_id(ids: Seq<Seq<char>>, model_id: Seq<char>) -> Seq<Seq<char>>
    decreases ids.len(),
{
    if ids.len() == 0 {
        Seq::empty()
    } else {
        let prev = without_id(ids.drop_last(), model_id);
        if ids.last() == model_id {
            prev
        } else {
            prev.push(ids.last())
        }
    }
}

/// Stops tracking a download, however it ended.
pub fn end_download(in_flight: &mut Vec<String>, model_id: &str)
    ensures
        views(final(in_flight)@) == without_id(views(old(in_flight)@), model_id@),
{
    let ghost before = views(in_flight@);
    let mut kept: Vec<String> = Vec::new();
    let mut i: usize = 0;
    while i < in_flight.len()
        invariant
            i <= in_flight@.len(),
            before == views(in_flight@),
            views(kept@) == without_id(before.take(i as int), model_id@),
        decreases in_flight.len() - i,
    {
        proof {
            assert(before[i as int] == in_flight@[i as int]@);
            assert(before.take(i + 1).drop_last() =~= before.take(i as int));
            assert(before.take(i + 1).last() == before[i as int]);
        }
        if in_flight[i].as_str().to_owned() != model_id.to_owned() {
            kept.push(in_flight[i].as_str().to_owned());
            proof {
                assert(views(kept@) =~= without_id(before.take(i as int), model_id@).push(before[i as int]));
            }
        }
        i = i + 1;
    }
    proof {
        assert(before.take(before.len() as int) =~= before);
    }
    *in_flight = kept;
}

proof fn lemma_without_absent(ids: Seq<Seq<char>>, model_id: Seq<char>)
    requires
        !ids.contains(model_id),
    ensures
        without_id(ids, model_id) == ids,
    decreases ids.len(),
{
    if ids.len() > 0 {
        assert(!ids.drop_last().contains(model_id)) by {
            if ids.drop_last().contains(model_id) {
                let k = choose|k: int| 0 <= k < ids.drop_last().len() && ids.drop_last()[k] == model_id;
                assert(ids[k] == model_id);
            }
        }
        lemma_without_absent(ids.drop_last(), model_id);
        assert(ids.last() != model_id) by {
            assert(ids[ids.len() - 1] == ids.last());
        }
        assert(ids.drop_last().push(ids.last()) =~= ids);
    }
}

/// A download that starts and then ends leaves the set in flight as it
/// was, so the same model can be downloaded again.
pub proof fn lemma_download_ends_where_it_began(ids: Seq<Seq<char>>, model_id: Seq<char>)
    requires
        !ids.contains(model_id),
    ensures
        without_id(ids.push(model_id), model_id) == ids,
{
    assert(ids.push(model_id).drop_last() =~= ids);
    lemma_without_absent(ids, model_id);
}

} // verus!
