//! What the server says of itself: its state, and its models.

use crate::gemini::models;
use crate::json;
use crate::json::{Json, JsonView};
use crate::web2api::http;
use crate::web2api::http::Reply;
use vstd::prelude::*;
use vstd::string::*;

verus! {

/// A model, as the protocol describes it.
pub open spec fn description_of(name: Seq<char>) -> JsonView {
    JsonView::object().with("id"@, JsonView::Text(name)).with(
        "object"@,
        JsonView::Text("model"@),
    ).with("created"@, json::count_value(1_700_000_000)).with(
        "owned_by"@,
        JsonView::Text("google"@),
    ).with("description"@, JsonView::Text(name))
}

/// All the models, by their names or described.
pub open spec fn model_list(described: bool) -> Seq<JsonView> {
    Seq::new(
        models::MODEL_KEYS@.len(),
        |i: int|
            if described {
                description_of(models::MODEL_KEYS@[i]@)
            } else {
                JsonView::Text(models::MODEL_KEYS@[i]@)
            },
    )
}

/// The state of the server.
pub open spec fn state_value(version: Seq<char>, default_model: Seq<char>) -> JsonView {
    JsonView::object().with("status"@, JsonView::Text("ok"@)).with(
        "version"@,
        JsonView::Text(version),
    ).with("models"@, JsonView::Array(model_list(false))).with(
        "defaultModel"@,
        JsonView::Text(default_model),
    )
}

fn describe(name: &str) -> (r: Json)
    ensures
        r@ == description_of(name@),
{
    Json::object().with("id", Json::from_text(name)).with("object", Json::from_text("model")).with(
        "created",
        Json::from_integer(1_700_000_000),
    ).with("owned_by", Json::from_text("google")).with("description", Json::from_text(name))
}

fn list_models(described: bool) -> (r: Vec<Json>)
    ensures
        json::items_view(r@) == model_list(described),
{
    let ghost wanted = model_list(described);
    let keys = models::MODEL_KEYS;
    let mut list: Vec<Json> = Vec::new();
    proof {
        assert(wanted.take(0) =~= Seq::empty());
    }
    let mut i: usize = 0;
    while i < keys.len()
        invariant
            i <= keys@.len(),
            keys@ == models::MODEL_KEYS@,
            wanted == model_list(described),
            json::items_view(list@) == wanted.take(i as int),
        decreases keys@.len() - i,
    {
        let item = if described {
            describe(keys[i])
        } else {
            Json::from_text(keys[i])
        };
        proof {
            json::lemma_items_push(list@, item);
            assert(wanted[i as int] == item@);
            assert(wanted.take(i + 1) =~= wanted.take(i as int).push(wanted[i as int]));
        }
        list.push(item);
        i += 1;
    }
    proof {
        assert(wanted.take(wanted.len() as int) =~= wanted);
    }
    list
}

/// `GET /`: the state of the server.
pub fn root(version: &str, default_model: &str) -> (r: Reply)
    ensures
        r@ == http::reply_of(200, state_value(version@, default_model@)),
{
    http::json_ok(
        &Json::object().with("status", Json::from_text("ok")).with(
            "version",
            Json::from_text(version),
        ).with("models", Json::Array(list_models(false))).with(
            "defaultModel",
            Json::from_text(default_model),
        ),
    )
}

/// `GET /v1/models`: all the models.
pub fn openai_models() -> (r: Reply)
    ensures
        r@ == http::reply_of(
            200,
            JsonView::object().with("object"@, JsonView::Text("list"@)).with(
                "data"@,
                JsonView::Array(model_list(true)),
            ),
        ),
{
    http::json_ok(
        &Json::object().with("object", Json::from_text("list")).with(
            "data",
            Json::Array(list_models(true)),
        ),
    )
}

/// The reply where there is no endpoint.
pub fn not_found() -> (r: Reply)
    ensures
        r@ == http::reply_of(
            404,
            JsonView::object().with("error"@, JsonView::Text("not found"@)),
        ),
{
    http::json_response(404, &Json::object().with("error", Json::from_text("not found")))
}

// ---------------------------------------------------------------------------
// Laws
// ---------------------------------------------------------------------------


/// A model is described under its own name.
pub proof fn law_model_is_described(name: Seq<char>)
    ensures
        description_of(name).get("id"@) == Some(JsonView::Text(name)),
        description_of(name).get("object"@) == Some(JsonView::Text("model"@)),
        description_of(name).get("owned_by"@) == Some(JsonView::Text("google"@)),
{
    reveal_strlit("id");
    reveal_strlit("object");
    reveal_strlit("created");
    reveal_strlit("owned_by");
    reveal_strlit("description");
    assert("id"@.len() == 2);
    assert("object"@.len() == 6);
    assert("created"@.len() == 7);
    assert("owned_by"@.len() == 8);
    assert("description"@.len() == 11);
    json::lemma_object_of_5(
        "id"@,
        JsonView::Text(name),
        "object"@,
        JsonView::Text("model"@),
        "created"@,
        json::count_value(1_700_000_000),
        "owned_by"@,
        JsonView::Text("google"@),
        "description"@,
        JsonView::Text(name),
    );
}

/// All the models of the table are listed, in their order.
pub proof fn law_every_model_is_listed(i: int)
    requires
        0 <= i < models::MODEL_KEYS@.len(),
    ensures
        model_list(true).len() == models::MODEL_KEYS@.len(),
        model_list(true)[i] == description_of(models::MODEL_KEYS@[i]@),
        model_list(false).len() == models::MODEL_KEYS@.len(),
        model_list(false)[i] == JsonView::Text(models::MODEL_KEYS@[i]@),
{
}

/// The state tells the version, the models and the default.
pub proof fn law_state_is_told(version: Seq<char>, default_model: Seq<char>)
    ensures
        state_value(version, default_model).get("status"@) == Some(JsonView::Text("ok"@)),
        state_value(version, default_model).get("version"@) == Some(JsonView::Text(version)),
        state_value(version, default_model).get("models"@) == Some(
            JsonView::Array(model_list(false)),
        ),
        state_value(version, default_model).get("defaultModel"@) == Some(
            JsonView::Text(default_model),
        ),
{
    reveal_strlit("status");
    reveal_strlit("version");
    reveal_strlit("models");
    reveal_strlit("defaultModel");
    assert("status"@.len() == 6);
    assert("version"@.len() == 7);
    assert("models"@.len() == 6);
    assert("defaultModel"@.len() == 12);
    assert("status"@[0] != "models"@[0]);
    json::lemma_object_of_4(
        "status"@,
        JsonView::Text("ok"@),
        "version"@,
        JsonView::Text(version),
        "models"@,
        JsonView::Array(model_list(false)),
        "defaultModel"@,
        JsonView::Text(default_model),
    );
}

} // verus!
