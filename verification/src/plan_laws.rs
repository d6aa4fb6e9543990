//! Which way a request takes, and what becomes of sessions, told by the data alone.
use crate::chat::PlanText;
use crate::completions::{
    character_limit, inline_threshold, model_position, plan_of, route_of, Completions, Route,
};
use crate::prompt::{history_split, native_blocks};
use crate::request::{RequestText, SessionText};
use crate::sessions::cleanup_of;
use vstd::prelude::*;

verus! {

proof fn lemma_model_position(models: Seq<String>, model: Seq<char>, from: int)
    requires
        0 <= from,
    ensures
        model_position(models, model, from) matches Some(i) ==> {
            &&& from <= i < models.len()
            &&& models[i]@ == model
            &&& forall|j: int| from <= j < i ==> (#[trigger] models[j])@ != model
        },
        model_position(models, model, from) is None ==> forall|j: int|
            from <= j < models.len() ==> (#[trigger] models[j])@ != model,
    decreases models.len() - from,
{
    if from < models.len() && models[from]@ != model {
        lemma_model_position(models, model, from + 1);
    }
}

/// The limit of a model is the one in the place at which the model first stands in the list. A model
/// that is not listed, or that has no limit in its place, has the default.
pub proof fn law_limit_belongs_to_the_first_model_of_the_name(
    models: Seq<String>,
    limits: Seq<u32>,
    model: Seq<char>,
    i: int,
)
    requires
        0 <= i < models.len(),
        models[i]@ == model,
        forall|j: int| 0 <= j < i ==> (#[trigger] models[j])@ != model,
    ensures
        i < limits.len() ==> character_limit(models, limits, model) == limits[i],
        i >= limits.len() ==> character_limit(models, limits, model) == 163_840,
{
    lemma_model_position(models, model, 0);
    match model_position(models, model, 0) {
        Some(k) => {
            if k < i {
                assert(models[k]@ != model);
            }
            if i < k {
                assert(models[i]@ != model);
            }
        },
        None => {
            assert(models[i]@ != model);
        },
    }
}

/// A model that is not listed has the default limit.
pub proof fn law_unlisted_model_has_the_default(
    models: Seq<String>,
    limits: Seq<u32>,
    model: Seq<char>,
)
    requires
        forall|j: int| 0 <= j < models.len() ==> (#[trigger] models[j])@ != model,
    ensures
        character_limit(models, limits, model) == 163_840,
{
    lemma_model_position(models, model, 0);
}

/// Three quarters of the limit are sent at once, rounded down.
pub proof fn law_three_quarters_are_sent_at_once(limit: int, c: Completions, model: Seq<char>)
    ensures
        4 * inline_threshold(limit) <= 3 * limit < 4 * inline_threshold(limit) + 4,
        ({
            let own = character_limit(c.models(), c.limits(), model);
            4 * c.threshold(model) <= 3 * own < 4 * c.threshold(model) + 4
        }),
{
}

/// Which way a request takes. A prompt that fits goes as it is. A longer one goes in segments to
/// the model `expert` and to no other; to any other it goes with its history in a file.
pub proof fn law_way_of_a_request(req: RequestText, threshold: int)
    ensures
        req.prompt.len() <= threshold ==> plan_of(req, threshold) == (PlanText::Single {
            inline_prompt: req.prompt,
            history: seq![],
        }),
        plan_of(req, threshold) is Segments <==> req.prompt.len() > threshold && req.model_type
            == "expert"@,
        plan_of(req, threshold) is Segments ==> plan_of(req, threshold) == (PlanText::Segments {
            chunk_size: threshold,
        }),
        req.prompt.len() > threshold && req.model_type != "expert"@ ==> {
            let (inline_prompt, history) = history_split(req.prompt, native_blocks(req.prompt));
            plan_of(req, threshold) == (PlanText::Single { inline_prompt, history })
        },
        route_of(req.prompt.len() as int, threshold, req.model_type) == Route::Direct
            <==> req.prompt.len() <= threshold,
        route_of(req.prompt.len() as int, threshold, req.model_type) == Route::Segments
            <==> req.prompt.len() > threshold && req.model_type == "expert"@,
{
}

/// A session is always deleted with its own token, and the response of one that has not come to
/// its end is stopped first.
pub proof fn law_session_is_cleaned_up(s: SessionText, finished: bool)
    ensures
        cleanup_of(s, finished).token == s.token,
        cleanup_of(s, finished).session_id == s.session_id,
        cleanup_of(s, finished).stop == if finished {
            None
        } else {
            Some((s.session_id, s.message_id))
        },
{
}

} // verus!
