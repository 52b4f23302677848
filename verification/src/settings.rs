//! Settings, layered from several files: a later file overrides an earlier
//! one, member by member.

use crate::agent_config;
use crate::json;
use crate::json::{Json, JsonView};
use crate::text;
use vstd::prelude::*;
use vstd::string::*;

verus! {

// ---------------------------------------------------------------------------
// Merging
// ---------------------------------------------------------------------------

/// `base` with `overlay` on top: two objects are merged member by member,
/// anything else is replaced.
pub open spec fn merged(base: JsonView, overlay: JsonView) -> JsonView
    decreases overlay, 0int,
{
    match (base, overlay) {
        (JsonView::Object(b), JsonView::Object(o)) => JsonView::Object(merged_members(b, o)),
        _ => overlay,
    }
}

/// The members of `base` with those of `overlay` on top: a member that is there
/// keeps its place, another one comes last.
pub open spec fn merged_members(
    base: Seq<(Seq<char>, JsonView)>,
    overlay: Seq<(Seq<char>, JsonView)>,
) -> Seq<(Seq<char>, JsonView)>
    decreases overlay, overlay.len(),
{
    if overlay.len() == 0 {
        base
    } else {
        let before = merged_members(base, overlay.drop_last());
        let key = overlay.last().0;
        let i = json::index_of_key(before, key);
        if 0 <= i < before.len() {
            before.update(i, (before[i].0, merged(before[i].1, overlay.last().1)))
        } else {
            before.push((key, overlay.last().1))
        }
    }
}

proof fn lemma_merged_distinct(
    base: Seq<(Seq<char>, JsonView)>,
    overlay: Seq<(Seq<char>, JsonView)>,
)
    requires
        json::keys_distinct(base),
    ensures
        json::keys_distinct(merged_members(base, overlay)),
    decreases overlay.len(),
{
    if overlay.len() > 0 {
        lemma_merged_distinct(base, overlay.drop_last());
        let before = merged_members(base, overlay.drop_last());
        json::lemma_index_of_key(before, overlay.last().0);
    }
}

/// A member of the merged settings: that of the overlay, merged with that of
/// the base where both have one; else that of whichever has one.
pub proof fn law_overlay_wins(
    base: Seq<(Seq<char>, JsonView)>,
    overlay: Seq<(Seq<char>, JsonView)>,
    key: Seq<char>,
)
    requires
        json::keys_distinct(base),
        json::keys_distinct(overlay),
    ensures
        ({
            let b = JsonView::Object(base).get(key);
            let o = JsonView::Object(overlay).get(key);
            merged(JsonView::Object(base), JsonView::Object(overlay)).get(key) == match (b, o) {
                (Some(bv), Some(ov)) => Some(merged(bv, ov)),
                (None, Some(ov)) => Some(ov),
                (_, None) => b,
            }
        }),
    decreases overlay.len(),
{
    if overlay.len() == 0 {
    } else {
        let front = overlay.drop_last();
        let last = overlay.last();
        assert forall|i: int, j: int| 0 <= i < j < front.len() implies (#[trigger] front[i]).0 != (
        #[trigger] front[j]).0 by {
            assert(overlay[i].0 != overlay[j].0);
        }
        law_overlay_wins(base, front, key);
        lemma_merged_distinct(base, front);
        let before = merged_members(base, front);
        let after = merged_members(base, overlay);
        json::lemma_index_of_key(before, last.0);
        json::lemma_index_of_key(before, key);
        json::lemma_index_of_key(after, key);
        json::lemma_index_of_key(front, key);
        json::lemma_index_of_key(overlay, key);
        json::lemma_index_of_key(base, key);
        let i = json::index_of_key(before, last.0);
        if last.0 == key {
            // The key is new to the overlay, so the base's member is untouched.
            let f = json::index_of_key(front, key);
            if f >= 0 {
                assert(overlay[f].0 != overlay[overlay.len() - 1].0);
            }
            if i >= 0 {
                assert(after[i].0 == key);
                lemma_only_place(after, key, i);
            } else {
                assert(after.last().0 == key);
            }
        } else {
            let a = json::index_of_key(before, key);
            let b = json::index_of_key(after, key);
            if a >= 0 {
                assert(after[a] == before[a]);
                lemma_merged_distinct(base, overlay);
                lemma_only_place(after, key, a);
            }
            if b >= 0 {
                assert(b < before.len());
                if b != i {
                    assert(before[b].0 == key);
                } else {
                    assert(after[b].0 == before[b].0);
                }
            }
        }
    }
}

proof fn lemma_only_place(members: Seq<(Seq<char>, JsonView)>, key: Seq<char>, i: int)
    requires
        json::keys_distinct(members),
        0 <= i < members.len(),
        members[i].0 == key,
    ensures
        json::index_of_key(members, key) == i,
{
    json::lemma_index_of_key(members, key);
    let k = json::index_of_key(members, key);
    if k < i {
        assert(members[i].0 != key);
    } else if k > i {
        assert(members[i].0 != members[k].0);
    }
}

/// Puts `overlay` on top of `base`: two objects are merged member by member,
/// anything else is replaced.
pub fn merge_json(base: &mut Json, overlay: Json)
    ensures
        final(base)@ == merged(old(base)@, overlay@),
    decreases overlay@, 1int,
{
    let mut held = Json::Null;
    core::mem::swap(base, &mut held);
    match (held, overlay) {
        (Json::Object(b), Json::Object(o)) => {
            *base = Json::Object(merge_members(b, o));
        },
        (_, overlay) => {
            *base = overlay;
        },
    }
}

fn merge_members(base: Vec<(String, Json)>, overlay: Vec<(String, Json)>) -> (r: Vec<
    (String, Json),
>)
    ensures
        json::members_of(json::members_view(r@)) == merged_members(
            json::members_of(json::members_view(base@)),
            json::members_of(json::members_view(overlay@)),
        ),
    decreases JsonView::Object(json::members_of(json::members_view(overlay@))), 0int,
{
    let ghost over = json::members_of(json::members_view(overlay@));
    let ghost whole = JsonView::Object(over);
    let mut out = json::distinct_members(base);
    let ghost start = json::members_view(out@);
    let list = json::distinct_members(overlay);
    let ghost items = list@;
    proof {
        json::lemma_members_view(items);
    }
    for (key, value) in it: list
        invariant
            it.seq() == items,
            whole == JsonView::Object(over),
            whole == JsonView::Object(json::members_of(json::members_view(overlay@))),
            over == json::members_view(items),
            over.len() == items.len(),
            forall|k: int|
                0 <= k < items.len() ==> #[trigger] over[k] == (items[k].0@, items[k].1@),
            json::members_view(out@) == merged_members(start, over.take(it.index())),
    {
        let ghost n = it.index();
        let ghost before = json::members_view(out@);
        proof {
            assert(over.take(n + 1).drop_last() =~= over.take(n));
            assert(over.take(n + 1).last() == (key@, value@));
            assert(over[n] == (key@, value@));
            assert(decreases_to!(whole => whole->Object_0));
            assert(decreases_to!(whole->Object_0 => whole->Object_0[n]));
            assert(decreases_to!(whole->Object_0[n] => whole->Object_0[n].1));
            json::lemma_members_view(out@);
        }
        match json::position_of(&out, key.as_str()) {
            Some(i) => {
                proof {
                    assert(before[i as int] == (out@[i as int].0@, out@[i as int].1@));
                }
                let (kept, mut existing) = out.remove(i);
                merge_json(&mut existing, value);
                out.insert(i, (kept, existing));
                proof {
                    json::lemma_members_view(out@);
                    assert(json::members_view(out@) =~= merged_members(start, over.take(n + 1)));
                }
            },
            None => {
                proof {
                    json::lemma_members_push(out@, (key, value));
                }
                out.push((key, value));
            },
        }
    }
    proof {
        assert(over.take(items.len() as int) =~= over);
        lemma_merged_distinct(start, over);
        json::lemma_members_of_distinct(json::members_view(out@));
    }
    out
}

// ---------------------------------------------------------------------------
// Files
// ---------------------------------------------------------------------------

/// The files that hold settings, the weakest first: those of the user, of the
/// project, of the user in the project, and of the machine.
pub open spec fn settings_files(
    cwd: Seq<char>,
    xdg_config_home: Option<Seq<char>>,
    home: Option<Seq<char>>,
) -> Seq<Seq<char>> {
    let user = match (xdg_config_home, home) {
        (Some(x), _) => seq![agent_config::path_below(x, "gemini-acp/settings.json"@)],
        (None, Some(h)) => seq![
            agent_config::path_below(
                agent_config::path_below(h, ".config"@),
                "gemini-acp/settings.json"@,
            ),
        ],
        (None, None) => Seq::empty(),
    };
    user + seq![
        agent_config::path_below(cwd, ".gemini/settings.json"@),
        agent_config::path_below(cwd, ".gemini/settings.local.json"@),
        "/etc/gemini-acp/managed-settings.json"@,
    ]
}

/// The files that hold settings, the weakest first.
pub fn watched_files(cwd: &str, xdg_config_home: Option<&str>, home: Option<&str>) -> (r: Vec<
    String,
>)
    ensures
        text::texts_of(r@) == settings_files(
            cwd@,
            text::option_str_view(xdg_config_home),
            text::option_str_view(home),
        ),
{
    let mut paths: Vec<String> = Vec::new();
    match xdg_config_home {
        Some(x) => {
            paths.push(agent_config::join_path(x, "gemini-acp/settings.json"));
        },
        None => match home {
            Some(h) => {
                let config = agent_config::join_path(h, ".config");
                paths.push(
                    agent_config::join_path(config.as_str(), "gemini-acp/settings.json"),
                );
            },
            None => {},
        },
    }
    paths.push(agent_config::join_path(cwd, ".gemini/settings.json"));
    paths.push(agent_config::join_path(cwd, ".gemini/settings.local.json"));
    paths.push("/etc/gemini-acp/managed-settings.json".to_owned());
    proof {
        assert(text::texts_of(paths@) =~= settings_files(
            cwd@,
            text::option_str_view(xdg_config_home),
            text::option_str_view(home),
        ));
    }
    paths
}

/// A file of settings: its path, and what it holds if it is there.
#[derive(Debug)]
pub struct SettingsFile {
    pub path: String,
    pub content: Option<String>,
}

/// The settings of the files, the later ones on top; or the path of the first
/// one that is not JSON.
pub open spec fn layered(files: Seq<SettingsFile>) -> Result<JsonView, Seq<char>>
    decreases files.len(),
{
    if files.len() == 0 {
        Ok(JsonView::object())
    } else {
        match layered(files.drop_last()) {
            Ok(below) => {
                let f = files.last();
                match f.content {
                    None => Ok(below),
                    Some(c) => match json::json_parsed(c@) {
                        Some(v) => Ok(merged(below, v)),
                        None => Err("settings JSON invalide: "@ + f.path@),
                    },
                }
            },
            Err(e) => Err(e),
        }
    }
}

proof fn lemma_first_bad(files: Seq<SettingsFile>, n: int)
    requires
        0 <= n <= files.len(),
        layered(files.take(n)) is Err,
    ensures
        layered(files) == layered(files.take(n)),
    decreases files.len() - n,
{
    if n < files.len() {
        assert(files.take(n + 1).drop_last() =~= files.take(n));
        lemma_first_bad(files, n + 1);
    } else {
        assert(files.take(n) =~= files);
    }
}

/// The settings of the files, the later ones on top. A file that is missing
/// says nothing; one that is not JSON is an error.
pub fn load_settings(files: &[SettingsFile]) -> (r: Result<Json, String>)
    ensures
        match r {
            Ok(j) => layered(files@) == Ok::<JsonView, Seq<char>>(j@),
            Err(e) => layered(files@) == Err::<JsonView, Seq<char>>(e@),
        },
{
    let mut effective = Json::object();
    let mut i: usize = 0;
    while i < files.len()
        invariant
            i <= files@.len(),
            layered(files@.take(i as int)) == Ok::<JsonView, Seq<char>>(effective@),
        decreases files@.len() - i,
    {
        proof {
            assert(files@.take(i + 1).drop_last() =~= files@.take(i as int));
            assert(files@.take(i + 1).last() == files@[i as int]);
        }
        match &files[i].content {
            Some(content) => match Json::parse(content.as_str()) {
                Some(value) => {
                    merge_json(&mut effective, value);
                },
                None => {
                    proof {
                        lemma_first_bad(files@, i + 1);
                    }
                    return Err(text::cat("settings JSON invalide: ", files[i].path.as_str()));
                },
            },
            None => {},
        }
        i += 1;
    }
    proof {
        assert(files@.take(files@.len() as int) =~= files@);
    }
    Ok(effective)
}

/// The settings in force.
#[derive(Debug)]
pub struct SettingsManager {
    effective: Json,
}

impl View for SettingsManager {
    type V = JsonView;

    closed spec fn view(&self) -> JsonView {
        self.effective@
    }
}

impl SettingsManager {
    /// No settings.
    pub fn new() -> (r: Self)
        ensures
            r@ == JsonView::object(),
    {
        SettingsManager { effective: Json::object() }
    }

    /// The settings in force.
    pub fn settings(&self) -> (r: Json)
        ensures
            r@ == self@,
    {
        self.effective.clone()
    }

    /// Takes over the settings of the files, and says whether they differ from
    /// those in force. Files that cannot be read as settings change nothing.
    pub fn load(&mut self, files: &[SettingsFile]) -> (r: Result<bool, String>)
        ensures
            match r {
                Ok(changed) => {
                    &&& layered(files@) is Ok
                    &&& changed == !json::json_equal(old(self)@, layered(files@)->Ok_0)
                    &&& layered(files@)->Ok_0 == old(self)@ ==> !changed
                    &&& final(self)@ == if changed {
                        layered(files@)->Ok_0
                    } else {
                        old(self)@
                    }
                },
                Err(e) => layered(files@) == Err::<JsonView, Seq<char>>(e@) && final(self)@
                    == old(self)@,
            },
    {
        match load_settings(files) {
            Ok(next) => {
                if self.effective.same(&next) {
                    Ok(false)
                } else {
                    self.effective = next;
                    Ok(true)
                }
            },
            Err(e) => Err(e),
        }
    }
}

// ---------------------------------------------------------------------------
// Which settings count
// ---------------------------------------------------------------------------


/// What is no object is replaced, whole, by what comes on top of it.
pub proof fn law_values_are_replaced(base: JsonView, overlay: JsonView)
    ensures
        !(base is Object) || !(overlay is Object) ==> merged(base, overlay) == overlay,
        merged(base, JsonView::object()) == (if base is Object {
            base
        } else {
            JsonView::object()
        }),
{
}

/// The files count in their order: the later one comes on top of those before
/// it; one that is not there changes nothing; one that is not JSON is an error
/// that names it, and so is every set of files that begins with it.
pub proof fn law_later_files_come_on_top(files: Seq<SettingsFile>, f: SettingsFile, v: JsonView)
    ensures
        layered(Seq::empty()) == Ok::<JsonView, Seq<char>>(JsonView::Object(Seq::empty())),
        f.content is None ==> layered(files.push(f)) == layered(files),
        layered(files) matches Ok(below) ==> {
            &&& f.content matches Some(c) ==> (json::json_parsed(c@) == Some(v) ==> layered(
                files.push(f),
            ) == Ok::<JsonView, Seq<char>>(merged(below, v)))
            &&& f.content matches Some(c) ==> (json::json_parsed(c@) is None ==> layered(
                files.push(f),
            ) == Err::<JsonView, Seq<char>>("settings JSON invalide: "@ + f.path@))
        },
        layered(files) matches Err(e) ==> layered(files.push(f)) == Err::<JsonView, Seq<char>>(e),
{
    assert(files.push(f).drop_last() =~= files);
}

/// The files, the weakest first: those of the user, in the directory for
/// configuration or else below the home; of the project; of the user in the
/// project; and of the machine, which have the last word.
pub proof fn law_files_that_count(cwd: Seq<char>, xdg: Seq<char>, home: Seq<char>)
    ensures
        settings_files(cwd, Some(xdg), Some(home)) == seq![
            agent_config::path_below(xdg, "gemini-acp/settings.json"@),
            agent_config::path_below(cwd, ".gemini/settings.json"@),
            agent_config::path_below(cwd, ".gemini/settings.local.json"@),
            "/etc/gemini-acp/managed-settings.json"@,
        ],
        settings_files(cwd, None, Some(home)) == seq![
            agent_config::path_below(
                agent_config::path_below(home, ".config"@),
                "gemini-acp/settings.json"@,
            ),
            agent_config::path_below(cwd, ".gemini/settings.json"@),
            agent_config::path_below(cwd, ".gemini/settings.local.json"@),
            "/etc/gemini-acp/managed-settings.json"@,
        ],
        settings_files(cwd, None, None) == seq![
            agent_config::path_below(cwd, ".gemini/settings.json"@),
            agent_config::path_below(cwd, ".gemini/settings.local.json"@),
            "/etc/gemini-acp/managed-settings.json"@,
        ],
{
    let rest = seq![
        agent_config::path_below(cwd, ".gemini/settings.json"@),
        agent_config::path_below(cwd, ".gemini/settings.local.json"@),
        "/etc/gemini-acp/managed-settings.json"@,
    ];
    let a = agent_config::path_below(xdg, "gemini-acp/settings.json"@);
    let b = agent_config::path_below(
        agent_config::path_below(home, ".config"@),
        "gemini-acp/settings.json"@,
    );
    assert(seq![a] + rest =~= seq![a, rest[0], rest[1], rest[2]]);
    assert(seq![b] + rest =~= seq![b, rest[0], rest[1], rest[2]]);
    assert(Seq::<Seq<char>>::empty() + rest =~= rest);
}

} // verus!
