//! The models of the service.
//!
//! A model is a mode (1 fast, 2 thinking, 3 pro, 4 automatic, 5 fast with
//! dynamic thinking, 6 light) and a level of thinking; some need more slots of
//! the request filled. The level can be set in the name: `key@think=N`.

use crate::text;
use vstd::prelude::*;
use vstd::string::*;

verus! {

/// The model that stands in for an unknown key.
pub const DEFAULT_MODEL: &'static str = "gemini-3.6-flash";

/// The keys that can be chosen.
pub const MODEL_KEYS: [&'static str; 8] = [
    "gemini-3.6-flash",
    "gemini-3.5-flash",
    "gemini-3.5-flash-thinking",
    "gemini-3.1-pro",
    "gemini-3.1-pro-enhanced",
    "gemini-auto",
    "gemini-3.5-flash-thinking-lite",
    "gemini-flash-lite",
];

/// What a model puts into a request: the mode, the level of thinking, and the
/// slots that it fills besides, with their values.
#[derive(Debug, Clone, PartialEq, Eq)]
pub struct Model {
    pub mode: u32,
    pub think: u32,
    pub extra: Option<Vec<(u32, i64)>>,
}

/// A model that a name was resolved to.
#[derive(Debug, Clone, PartialEq, Eq)]
pub struct Resolved {
    pub name: String,
    pub mode: u32,
    pub think: u32,
    pub extra: Option<Vec<(u32, i64)>>,
}

pub struct ModelView {
    pub mode: u32,
    pub think: u32,
    pub extra: Option<Seq<(u32, i64)>>,
}

pub struct ResolvedView {
    pub name: Seq<char>,
    pub mode: u32,
    pub think: u32,
    pub extra: Option<Seq<(u32, i64)>>,
}

pub open spec fn extra_view(extra: Option<Vec<(u32, i64)>>) -> Option<Seq<(u32, i64)>> {
    match extra {
        Some(slots) => Some(slots@),
        None => None,
    }
}

impl View for Model {
    type V = ModelView;

    open spec fn view(&self) -> ModelView {
        ModelView { mode: self.mode, think: self.think, extra: extra_view(self.extra) }
    }
}

impl View for Resolved {
    type V = ResolvedView;

    open spec fn view(&self) -> ResolvedView {
        ResolvedView {
            name: self.name@,
            mode: self.mode,
            think: self.think,
            extra: extra_view(self.extra),
        }
    }
}

/// The table of models.
pub open spec fn model_of(key: Seq<char>) -> Option<ModelView> {
    if key == "gemini-3.6-flash"@ || key == "gemini-3.5-flash"@ {
        Some(ModelView { mode: 1, think: 4, extra: None })
    } else if key == "gemini-3.5-flash-thinking"@ {
        Some(ModelView { mode: 2, think: 0, extra: None })
    } else if key == "gemini-3.1-pro"@ {
        Some(ModelView { mode: 3, think: 4, extra: None })
    } else if key == "gemini-3.1-pro-enhanced"@ {
        Some(ModelView { mode: 3, think: 4, extra: Some(seq![(31u32, 2i64), (80u32, 3i64)]) })
    } else if key == "gemini-auto"@ {
        Some(ModelView { mode: 4, think: 4, extra: None })
    } else if key == "gemini-3.5-flash-thinking-lite"@ {
        Some(ModelView { mode: 5, think: 0, extra: None })
    } else if key == "gemini-flash-lite"@ {
        Some(ModelView { mode: 6, think: 4, extra: None })
    } else {
        None
    }
}

/// The key that a name holds: what stands before the suffix.
pub open spec fn key_in(model: Seq<char>) -> Seq<char> {
    match text::first_match(model, "@think="@) {
        Some(i) => model.take(i),
        None => model,
    }
}

/// What the suffix of a name says, if it has one.
pub open spec fn level_in(model: Seq<char>) -> Option<Seq<char>> {
    match text::first_match(model, "@think="@) {
        Some(i) => Some(model.skip(i + "@think="@.len())),
        None => None,
    }
}

/// The level of thinking that a suffix asks for: at most 4.
pub open spec fn level_value(level: Seq<char>) -> Option<u32> {
    match text::unsigned_of(level, u32::MAX as nat) {
        Some(n) => Some(
            if n > 4 {
                4u32
            } else {
                n as u32
            },
        ),
        None => None,
    }
}

/// What is wrong with the suffix of a name, if anything is.
pub open spec fn suffix_error(model: Seq<char>) -> Option<Seq<char>> {
    if text::match_count(model, "@think="@, 0) > 1 {
        Some(
            "Multiple @think= suffixes in model name '"@ + model + "' (expected at most one)"@,
        )
    } else {
        match level_in(model) {
            Some(level) => if level_value(level) is None {
                Some("Invalid think level: "@ + level)
            } else {
                None
            },
            None => None,
        }
    }
}

/// The model that a key stands for, under that name, with the level of
/// thinking that a suffix asks for.
pub open spec fn resolved_as(name: Seq<char>, m: ModelView, level: Option<Seq<char>>) -> ResolvedView {
    ResolvedView {
        name,
        mode: m.mode,
        think: match level {
            Some(l) => level_value(l)->0,
            None => m.think,
        },
        extra: m.extra,
    }
}

/// What a name is resolved to.
pub open spec fn resolution(model: Seq<char>, default: Seq<char>) -> Result<
    ResolvedView,
    Seq<char>,
> {
    match suffix_error(model) {
        Some(message) => Err(message),
        None => match model_of(key_in(model)) {
            Some(m) => Ok(resolved_as(key_in(model), m, level_in(model))),
            None => Ok(resolved_as(default, model_of(default)->0, level_in(model))),
        },
    }
}

fn plain(mode: u32, think: u32) -> (r: Option<Model>)
    ensures
        r matches Some(m) && m@ == (ModelView { mode, think, extra: None }),
{
    Some(Model { mode, think, extra: None })
}

fn table(key: &str) -> (r: Option<Model>)
    ensures
        match r {
            Some(m) => model_of(key@) == Some(m@),
            None => model_of(key@) is None,
        },
{
    if text::same(key, "gemini-3.6-flash") || text::same(key, "gemini-3.5-flash") {
        plain(1, 4)
    } else if text::same(key, "gemini-3.5-flash-thinking") {
        plain(2, 0)
    } else if text::same(key, "gemini-3.1-pro") {
        plain(3, 4)
    } else if text::same(key, "gemini-3.1-pro-enhanced") {
        let mut slots: Vec<(u32, i64)> = Vec::new();
        slots.push((31, 2));
        slots.push((80, 3));
        proof {
            assert(slots@ =~= seq![(31u32, 2i64), (80u32, 3i64)]);
        }
        Some(Model { mode: 3, think: 4, extra: Some(slots) })
    } else if text::same(key, "gemini-auto") {
        plain(4, 4)
    } else if text::same(key, "gemini-3.5-flash-thinking-lite") {
        plain(5, 0)
    } else if text::same(key, "gemini-flash-lite") {
        plain(6, 4)
    } else {
        None
    }
}

/// Whether the key is in the table of models.
pub fn is_known(key: &str) -> (r: bool)
    ensures
        r == (model_of(key@) is Some),
{
    table(key).is_some()
}

/// Resolves a name. A suffix `@think=N` sets the level of thinking, up to 4;
/// an unknown key gives the model of the key `default`, which must be known.
/// An error where the suffix is not a number or stands there twice.
pub fn resolve(model: &str, default: &str) -> (r: Result<Resolved, String>)
    requires
        suffix_error(model@) is None && model_of(key_in(model@)) is None ==> model_of(
            default@,
        ) is Some,
    ensures
        match r {
            Ok(m) => resolution(model@, default@) == Ok::<ResolvedView, Seq<char>>(m@),
            Err(message) => resolution(model@, default@) == Err::<ResolvedView, Seq<char>>(
                message@,
            ),
        },
{
    proof {
        reveal_strlit("@think=");
    }
    if text::count_matches(model, "@think=") > 1 {
        return Err(
            text::cat3(
                "Multiple @think= suffixes in model name '",
                model,
                "' (expected at most one)",
            ),
        );
    }
    let mut key: &str = model;
    let mut think: Option<u32> = None;
    match text::split_once(model, "@think=") {
        Some((before, level)) => match text::parse_unsigned(level, u32::MAX as u64) {
            Some(n) => {
                think = Some(
                    if n > 4 {
                        4
                    } else {
                        n as u32
                    },
                );
                key = before;
            },
            None => {
                return Err(text::cat("Invalid think level: ", level));
            },
        },
        None => {},
    }
    let found: Option<Model> = table(key);
    let (name, m): (&str, Model) = match found {
        Some(m) => (key, m),
        None => match table(default) {
            Some(m) => (default, m),
            None => vstd::pervasive::unreached(),
        },
    };
    Ok(
        Resolved {
            name: name.to_owned(),
            mode: m.mode,
            think: match think {
                Some(level) => level,
                None => m.think,
            },
            extra: m.extra,
        },
    )
}

/// Whether a mode is that of a model that writes its reasoning before its
/// answer.
pub fn is_thinking_mode(mode: u32) -> (r: bool)
    ensures
        r == (mode == 2 || mode == 5),
{
    mode == 2 || mode == 5
}

/// A level of thinking is never above 4, and it is that of the table where the
/// name has no suffix.
pub proof fn law_think_level(model: Seq<char>, default: Seq<char>)
    requires
        model_of(default) is Some,
    ensures
        match resolution(model, default) {
            Ok(m) => {
                &&& m.think <= 4
                &&& level_in(model) is None ==> m.think == model_of(m.name)->0.think
            },
            Err(_) => true,
        },
{
}

/// What a name is resolved to is a model of the table, under its key.
pub proof fn law_resolved_is_known(model: Seq<char>, default: Seq<char>)
    requires
        model_of(default) is Some,
    ensures
        match resolution(model, default) {
            Ok(m) => {
                &&& model_of(m.name) matches Some(entry) && entry.mode == m.mode && entry.extra
                    == m.extra
                &&& m.name == key_in(model) || m.name == default
            },
            Err(_) => true,
        },
{
}

/// Each of the keys that can be chosen is in the table.
pub proof fn law_keys_are_known(i: int)
    requires
        0 <= i < 8,
    ensures
        model_of(MODEL_KEYS@[i]@) is Some,
{
}

/// A name with one suffix: the key stands before it, the level behind it.
pub proof fn lemma_one_suffix(key: Seq<char>, level: Seq<char>)
    requires
        !key.contains('@'),
    ensures
        text::first_match(key + "@think="@ + level, "@think="@) == Some(key.len() as int),
        !level.contains('@') ==> text::match_count(key + "@think="@ + level, "@think="@, 0) == 1,
        key_in(key + "@think="@ + level) == key,
        level_in(key + "@think="@ + level) == Some(level),
        key_in(key) == key,
        level_in(key) is None,
        text::match_count(key, "@think="@, 0) == 0,
{
    reveal_strlit("@think=");
    let name = key + "@think="@ + level;
    let n = key.len() as int;
    assert(name.subrange(n, n + 7) =~= "@think="@);
    assert(text::matches_at(name, "@think="@, n));
    assert forall|j: int| 0 <= j < n implies !text::matches_at(name, "@think="@, j) by {
        if text::matches_at(name, "@think="@, j) {
            assert(name.subrange(j, j + 7)[0] == key[j]);
            assert(key.contains(key[j]));
        }
    }
    text::lemma_find_from_is(name, "@think="@, 0, n);
    assert(name.take(n) =~= key);
    assert(name.skip(n + 7) =~= level);
    if !level.contains('@') {
        text::lemma_find_from(name, "@think="@, n + 7);
        match text::find_from(name, "@think="@, n + 7) {
            Some(j) => {
                assert(name.subrange(j, j + 7)[0] == name[j]);
                assert(name[j] == level[j - n - 7]);
                assert(level.contains(level[j - n - 7]));
            },
            None => {},
        }
        reveal_with_fuel(text::match_count, 2);
    }
    text::lemma_find_from(key, "@think="@, 0);
    match text::find_from(key, "@think="@, 0) {
        Some(j) => {
            assert(key.subrange(j, j + 7)[0] == key[j]);
            assert(key.contains(key[j]));
        },
        None => {},
    }
}

/// The table: which mode and which level of thinking each model has, and the
/// slots that one of them sets.
pub proof fn law_table_of_models()
    ensures
        model_of("gemini-3.6-flash"@) == Some(ModelView { mode: 1, think: 4, extra: None }),
        model_of("gemini-3.5-flash"@) == Some(ModelView { mode: 1, think: 4, extra: None }),
        model_of("gemini-3.5-flash-thinking"@) == Some(
            ModelView { mode: 2, think: 0, extra: None },
        ),
        model_of("gemini-3.1-pro"@) == Some(ModelView { mode: 3, think: 4, extra: None }),
        model_of("gemini-3.1-pro-enhanced"@) == Some(
            ModelView { mode: 3, think: 4, extra: Some(seq![(31u32, 2i64), (80u32, 3i64)]) },
        ),
        model_of("gemini-auto"@) == Some(ModelView { mode: 4, think: 4, extra: None }),
        model_of("gemini-3.5-flash-thinking-lite"@) == Some(
            ModelView { mode: 5, think: 0, extra: None },
        ),
        model_of("gemini-flash-lite"@) == Some(ModelView { mode: 6, think: 4, extra: None }),
        DEFAULT_MODEL@ == "gemini-3.6-flash"@,
{
    reveal_strlit("gemini-3.6-flash");
    reveal_strlit("gemini-3.5-flash");
    reveal_strlit("gemini-3.5-flash-thinking");
    reveal_strlit("gemini-3.1-pro");
    reveal_strlit("gemini-3.1-pro-enhanced");
    reveal_strlit("gemini-auto");
    reveal_strlit("gemini-3.5-flash-thinking-lite");
    reveal_strlit("gemini-flash-lite");
    assert("gemini-3.6-flash"@.len() == 16);
    assert("gemini-3.5-flash"@.len() == 16);
    assert("gemini-3.5-flash-thinking"@.len() == 25);
    assert("gemini-3.1-pro"@.len() == 14);
    assert("gemini-3.1-pro-enhanced"@.len() == 23);
    assert("gemini-auto"@.len() == 11);
    assert("gemini-3.5-flash-thinking-lite"@.len() == 30);
    assert("gemini-flash-lite"@.len() == 17);
    assert("gemini-3.6-flash"@[9] != "gemini-3.5-flash"@[9]);
}

/// A name of the table is resolved to itself, a name with a suffix to the same
/// model with the level that the suffix gives, at most 4; a name that is not in
/// the table to the default, with the level that the suffix gives. The default
/// has no part in the first two.
pub proof fn law_names_are_resolved(key: Seq<char>, n: nat, default: Seq<char>)
    requires
        !key.contains('@'),
        n <= 0xffff_ffff,
        model_of(default) is Some,
    ensures
        model_of(key) matches Some(m) ==> {
            &&& resolution(key, default) == Ok::<ResolvedView, Seq<char>>(
                ResolvedView { name: key, mode: m.mode, think: m.think, extra: m.extra },
            )
            &&& resolution(key + "@think="@ + text::decimal(n), default) == Ok::<
                ResolvedView,
                Seq<char>,
            >(
                ResolvedView {
                    name: key,
                    mode: m.mode,
                    think: if n > 4 {
                        4u32
                    } else {
                        n as u32
                    },
                    extra: m.extra,
                },
            )
        },
        model_of(key) is None ==> resolution(key, default) == resolution(default, default)
            || default.contains('@'),
{
    let level = text::decimal(n);
    text::lemma_decimal_value(n);
    assert(!level.contains('@')) by {
        if level.contains('@') {
            let i = choose|i: int| 0 <= i < level.len() && level[i] == '@';
            assert(text::is_digit(level[i]));
        }
    }
    text::law_decimal_read_back(n, u32::MAX as nat);
    lemma_one_suffix(key, level);
    if !default.contains('@') {
        lemma_one_suffix(default, level);
    }
}

/// A suffix that is no number, and a second suffix, are errors that say what was
/// wrong.
pub proof fn law_bad_suffix_is_an_error(
    key: Seq<char>,
    level: Seq<char>,
    name: Seq<char>,
    default: Seq<char>,
)
    requires
        !key.contains('@'),
        !level.contains('@'),
    ensures
        text::unsigned_of(level, u32::MAX as nat) is None ==> resolution(
            key + "@think="@ + level,
            default,
        ) == Err::<ResolvedView, Seq<char>>("Invalid think level: "@ + level),
        text::match_count(name, "@think="@, 0) > 1 ==> resolution(name, default) == Err::<
            ResolvedView,
            Seq<char>,
        >("Multiple @think= suffixes in model name '"@ + name + "' (expected at most one)"@),
{
    lemma_one_suffix(key, level);
}

/// A name with two suffixes is refused, whatever they say.
pub proof fn law_two_suffixes_are_refused(
    key: Seq<char>,
    a: Seq<char>,
    b: Seq<char>,
    default: Seq<char>,
)
    requires
        !key.contains('@'),
        !a.contains('@'),
    ensures
        resolution(key + "@think="@ + a + "@think="@ + b, default) is Err,
{
    reveal_strlit("@think=");
    let name = key + "@think="@ + a + "@think="@ + b;
    let n = key.len() as int;
    let m = n + 7 + a.len();
    assert(name.subrange(n, n + 7) =~= "@think="@);
    assert(text::matches_at(name, "@think="@, n));
    assert(name.subrange(m, m + 7) =~= "@think="@);
    assert(text::matches_at(name, "@think="@, m));
    assert forall|j: int| 0 <= j < n implies !text::matches_at(name, "@think="@, j) by {
        if text::matches_at(name, "@think="@, j) {
            assert(name.subrange(j, j + 7)[0] == key[j]);
            assert(key.contains(key[j]));
        }
    }
    text::lemma_find_from_is(name, "@think="@, 0, n);
    assert forall|j: int| n + 7 <= j < m implies !text::matches_at(name, "@think="@, j) by {
        if text::matches_at(name, "@think="@, j) {
            assert(name.subrange(j, j + 7)[0] == a[j - n - 7]);
            assert(a.contains(a[j - n - 7]));
        }
    }
    text::lemma_find_from_is(name, "@think="@, n + 7, m);
    reveal_with_fuel(text::match_count, 3);
}

} // verus!
