//! The list of models.
use vstd::prelude::*;
use vstd::string::*;

use crate::json;
use crate::json::{Fields, Json, JsonV, Number};
use crate::server::exceptions;
use crate::server::exceptions::ApiError;
use crate::text;

verus! {

/// A model as it is listed.
pub open spec fn model_json(id: Seq<char>) -> JsonV {
    JsonV::Object(
        seq![
            ("id"@, JsonV::Str(id)),
            ("object"@, JsonV::Str("model"@)),
            ("created"@, JsonV::Number(Number::Unsigned(0))),
            ("owned_by"@, JsonV::Str("grok2api"@)),
        ],
    )
}

/// The list of models.
pub open spec fn models_json(ids: Seq<Seq<char>>) -> JsonV {
    JsonV::Object(
        seq![
            ("object"@, JsonV::Str("list"@)),
            ("data"@, JsonV::Array(ids.map_values(|id: Seq<char>| model_json(id)))),
        ],
    )
}

/// The list of models, where the endpoint is enabled.
pub fn list_models(enabled: bool, ids: &Vec<String>) -> (r: Result<Json, ApiError>)
    ensures
        match r {
            Ok(j) => enabled && j@ == models_json(text::texts(ids@)),
            Err(e) => !enabled && e@ == exceptions::not_found_of("Endpoint disabled"@),
        },
{
    if !enabled {
        return Err(ApiError::not_found("Endpoint disabled"));
    }
    let ghost want = text::texts(ids@).map_values(|id: Seq<char>| model_json(id));
    let mut data: Vec<Json> = Vec::new();
    let n: usize = ids.len();
    let mut i: usize = 0;
    while i < n
        invariant
            n == ids@.len(),
            i <= n,
            want == text::texts(ids@).map_values(|id: Seq<char>| model_json(id)),
            json::models(data@) =~= want.take(i as int),
        decreases n - i,
    {
        let ghost held = data@;
        let mut m = Fields::new();
        m.add("id", json::text_value(ids[i].as_str()));
        m.add("object", json::text_value("model"));
        m.add("created", json::count_value(0));
        m.add("owned_by", json::text_value("grok2api"));
        proof {
            assert(m@ =~= model_json(ids@[i as int]@)->Object_0);
        }
        let item = m.object();
        data.push(item);
        proof {
            assert(json::models(data@) =~= json::models(held).push(item@));
        }
        i += 1;
    }
    proof {
        assert(json::models(data@) =~= want);
    }
    let mut f = Fields::new();
    f.add("object", json::text_value("list"));
    f.add("data", json::array(data));
    proof {
        assert(f@ =~= models_json(text::texts(ids@))->Object_0);
    }
    Ok(f.object())
}

} // verus!
