//! Reading configuration sources and merging them into one alias mapping.
use vstd::prelude::*;

use crate::alias_map::{keys_unique, map_of, pairs_view, AliasMap};

verus! {

#[verifier::external_type_specification]
#[verifier::external_body]
pub struct ExJsonError(serde_json::Error);

/// The members of the JSON object that `text` holds, each value written back
/// as JSON text, or `None` where `text` is no JSON object.
pub uninterp spec fn json_members(text: Seq<char>) -> Option<Map<Seq<char>, Seq<char>>>;

/// What `text` holds read as a JSON object whose every member is a string, or
/// `None` where it is not such an object.
pub uninterp spec fn json_string_map(text: Seq<char>) -> Option<Map<Seq<char>, Seq<char>>>;

/// Relies on serde_json::from_str reading `text` into a HashMap of member name
/// to serde_json::Value (each name once), and on the Value's to_string writing
/// the member's value back as JSON text.
#[verifier::external_body]
fn read_members(text: &str) -> (r: Result<Vec<(String, String)>, serde_json::Error>)
    ensures
        match r {
            Ok(v) => keys_unique(pairs_view(v@)) && json_members(text@) == Some(map_of(pairs_view(v@))),
            Err(_) => json_members(text@) is None,
        },
{
    serde_json::from_str::<std::collections::HashMap<String, serde_json::Value>>(text)
        .map(|m| m.into_iter().map(|(k, v)| (k, v.to_string())).collect())
}

/// Relies on serde_json::from_str reading `text` into a HashMap of String to
/// String (each key once).
#[verifier::external_body]
fn read_string_map(text: &str) -> (r: Result<Vec<(String, String)>, serde_json::Error>)
    ensures
        match r {
            Ok(v) => keys_unique(pairs_view(v@)) && json_string_map(text@) == Some(map_of(pairs_view(v@))),
            Err(_) => json_string_map(text@) is None,
        },
{
    serde_json::from_str::<std::collections::HashMap<String, String>>(text)
        .map(|m| m.into_iter().collect())
}

/// Why a configuration source that could be opened was refused.
#[derive(Debug, Clone, Copy, PartialEq, Eq, Structural)]
pub enum ConfigError {
    /// The content is not a JSON object.
    NotAnObject,
    /// The object has no `commands` member.
    MissingCommands,
    /// The `commands` member is not an object of strings.
    BadCommands,
}

impl ConfigError {
    /// A one-line description of the failure.
    pub fn message(&self) -> &'static str {
        match self {
            ConfigError::NotAnObject => "configuration is not a JSON object",
            ConfigError::MissingCommands => "configuration has no \"commands\" member",
            ConfigError::BadCommands => "\"commands\" is not an object of strings",
        }
    }
}

/// The member of a configuration object that holds the aliases.
pub open spec fn commands_key() -> Seq<char> {
    "commands"@
}

/// The local source, relative to the working directory.
pub const LOCAL_CONFIG_FILE: &'static str = "dyncomp.json";

/// The global sources: one under the platform's configuration directory, one
/// under `.config` in the home directory; a path named twice is read once.
pub fn global_config_paths(config_dir: &str, home_dir: &str) -> (r: Vec<String>)
    ensures
        r@.len() >= 1,
        r@[0]@ == config_dir@ + "/dyncomp/config.json"@,
        r@.len() == (if config_dir@ + "/dyncomp/config.json"@ == home_dir@ + "/.config/dyncomp/config.json"@ {
            1int
        } else {
            2int
        }),
        r@.len() == 2 ==> r@[1]@ == home_dir@ + "/.config/dyncomp/config.json"@,
{
    let mut first = config_dir.to_owned();
    first.append("/dyncomp/config.json");
    let mut second = home_dir.to_owned();
    second.append("/.config/dyncomp/config.json");
    let mut r: Vec<String> = Vec::new();
    if first == second {
        r.push(first);
    } else {
        r.push(first);
        r.push(second);
    }
    r
}

/// The mapping that configuration text defines, or why it is refused.
pub open spec fn config_of(text: Seq<char>) -> Result<Map<Seq<char>, Seq<char>>, ConfigError> {
    match json_members(text) {
        None => Err(ConfigError::NotAnObject),
        Some(members) => if !members.contains_key(commands_key()) {
            Err(ConfigError::MissingCommands)
        } else {
            match json_string_map(members[commands_key()]) {
                None => Err(ConfigError::BadCommands),
                Some(c) => Ok(c),
            }
        },
    }
}

/// What one source contributes: nothing where it could not be opened
/// (`None`), else what its content defines.
pub open spec fn source_of(content: Option<Seq<char>>) -> Result<Map<Seq<char>, Seq<char>>, ConfigError> {
    match content {
        None => Ok(Map::empty()),
        Some(text) => config_of(text),
    }
}

/// The global sources merged in order, a later one overriding an earlier one;
/// the first refused source decides the error.
pub open spec fn globals_of(sources: Seq<Option<Seq<char>>>) -> Result<Map<Seq<char>, Seq<char>>, ConfigError>
    decreases sources.len(),
{
    if sources.len() == 0 {
        Ok(Map::empty())
    } else {
        match globals_of(sources.drop_last()) {
            Err(e) => Err(e),
            Ok(m) => match source_of(sources.last()) {
                Err(e) => Err(e),
                Ok(f) => Ok(m.union_prefer_right(f)),
            },
        }
    }
}

/// The merged mapping: the local source is read first and overrides every
/// global one.
pub open spec fn load_of(globals: Seq<Option<Seq<char>>>, local: Option<Seq<char>>) -> Result<Map<Seq<char>, Seq<char>>, ConfigError> {
    match source_of(local) {
        Err(e) => Err(e),
        Ok(l) => match globals_of(globals) {
            Err(e) => Err(e),
            Ok(g) => Ok(g.union_prefer_right(l)),
        },
    }
}

/// A result of the loader agrees with its model.
pub open spec fn loaded_as(r: Result<AliasMap, ConfigError>, model: Result<Map<Seq<char>, Seq<char>>, ConfigError>) -> bool {
    match r {
        Ok(m) => m.wf() && model == Ok::<Map<Seq<char>, Seq<char>>, ConfigError>(m@),
        Err(e) => model == Err::<Map<Seq<char>, Seq<char>>, ConfigError>(e),
    }
}

/// The views of optional strings.
pub open spec fn contents_view(v: Seq<Option<String>>) -> Seq<Option<Seq<char>>> {
    v.map_values(|o: Option<String>| match o {
        Some(s) => Some(s@),
        None => None,
    })
}

/// Reads the mapping that configuration text defines.
pub fn parse_config(text: &str) -> (r: Result<AliasMap, ConfigError>)
    ensures
        loaded_as(r, config_of(text@)),
{
    let members = match read_members(text) {
        Ok(v) => v,
        Err(_) => return Err(ConfigError::NotAnObject),
    };
    let ghost s = pairs_view(members@);
    let key = "commands".to_owned();
    let mut i: usize = 0;
    while i < members.len()
        invariant
            i <= members@.len(),
            s == pairs_view(members@),
            key@ == commands_key(),
            keys_unique(s),
            json_members(text@) == Some(map_of(s)),
            forall|j: int| 0 <= j < i ==> s[j].0 != commands_key(),
        decreases members@.len() - i,
    {
        if members[i].0 == key {
            assert(s[i as int].0 == commands_key());
            proof {
                crate::alias_map::lemma_map_of(s);
            }
            assert(map_of(s)[s[i as int].0] == s[i as int].1);
            return match read_string_map(members[i].1.as_str()) {
                Ok(c) => Ok(AliasMap::from_pairs(c)),
                Err(_) => Err(ConfigError::BadCommands),
            };
        }
        i = i + 1;
    }
    proof {
        crate::alias_map::lemma_map_of(s);
    }
    Err(ConfigError::MissingCommands)
}

/// Reads one source: `None` stands for a source that could not be opened and
/// contributes no alias.
pub fn pull_config(content: Option<&str>) -> (r: Result<AliasMap, ConfigError>)
    ensures
        loaded_as(r, source_of(match content {
            Some(t) => Some(t@),
            None => None,
        })),
{
    match content {
        None => Ok(AliasMap::new()),
        Some(text) => parse_config(text),
    }
}

/// Once a prefix of the global sources is refused, so are all of them, with
/// the same error.
proof fn lemma_first_error(s: Seq<Option<Seq<char>>>, k: int)
    requires
        0 <= k <= s.len(),
        globals_of(s.take(k)) is Err,
    ensures
        globals_of(s) == globals_of(s.take(k)),
    decreases s.len(),
{
    if k == s.len() {
        assert(s.take(k) =~= s);
    } else {
        assert(s.drop_last().take(k) =~= s.take(k));
        lemma_first_error(s.drop_last(), k);
    }
}

/// Reads every source and merges them: the global sources in the order given,
/// each overriding the ones before it, then the local source over all of them.
/// The local source is read first, so its error comes before any global one.
pub fn load_aliases(globals: &Vec<Option<String>>, local: Option<&str>) -> (r: Result<AliasMap, ConfigError>)
    ensures
        loaded_as(r, load_of(contents_view(globals@), match local {
            Some(t) => Some(t@),
            None => None,
        })),
{
    let local_map = match pull_config(local) {
        Ok(m) => m,
        Err(e) => return Err(e),
    };
    let ghost gs = contents_view(globals@);
    let mut merged = AliasMap::new();
    let mut i: usize = 0;
    assert(gs.take(0) =~= Seq::<Option<Seq<char>>>::empty());
    while i < globals.len()
        invariant
            i <= globals@.len(),
            gs == contents_view(globals@),
            merged.wf(),
            local_map.wf(),
            source_of(match local {
                Some(t) => Some(t@),
                None => None,
            }) == Ok::<Map<Seq<char>, Seq<char>>, ConfigError>(local_map@),
            globals_of(gs.take(i as int)) == Ok::<Map<Seq<char>, Seq<char>>, ConfigError>(merged@),
        decreases globals@.len() - i,
    {
        let fragment = match &globals[i] {
            Some(t) => parse_config(t.as_str()),
            None => Ok(AliasMap::new()),
        };
        assert(gs.take(i + 1).drop_last() =~= gs.take(i as int));
        assert(gs.take(i + 1).last() == gs[i as int]);
        match fragment {
            Err(e) => {
                assert(source_of(gs[i as int]) == Err::<Map<Seq<char>, Seq<char>>, ConfigError>(e));
                assert(globals_of(gs.take(i + 1)) == Err::<Map<Seq<char>, Seq<char>>, ConfigError>(e));
                proof {
                    lemma_first_error(gs, i + 1);
                }
                return Err(e);
            },
            Ok(f) => merged.extend(&f),
        }
        i = i + 1;
    }
    assert(gs.take(i as int) =~= gs);
    merged.extend(&local_map);
    Ok(merged)
}

/// A definition in the local source always wins: where every source loads,
/// an alias that the local source defines resolves to the local command,
/// whatever the global sources say of it.
pub proof fn lemma_local_wins(
    globals: Seq<Option<Seq<char>>>,
    local: Seq<char>,
    alias: Seq<char>,
    merged: Map<Seq<char>, Seq<char>>,
    own: Map<Seq<char>, Seq<char>>,
)
    requires
        load_of(globals, Some(local)) == Ok::<Map<Seq<char>, Seq<char>>, ConfigError>(merged),
        config_of(local) == Ok::<Map<Seq<char>, Seq<char>>, ConfigError>(own),
        own.contains_key(alias),
    ensures
        merged.contains_key(alias),
        merged[alias] == own[alias],
{
}

/// Every alias of the global sources is kept by their merge.
proof fn lemma_globals_keep(s: Seq<Option<Seq<char>>>, m: Map<Seq<char>, Seq<char>>)
    requires
        globals_of(s) == Ok::<Map<Seq<char>, Seq<char>>, ConfigError>(m),
    ensures
        forall|i: int| 0 <= i < s.len() ==> match #[trigger] source_of(s[i]) {
            Ok(f) => f.dom().subset_of(m.dom()),
            Err(_) => false,
        },
    decreases s.len(),
{
    if s.len() > 0 {
        let t = s.drop_last();
        let g = globals_of(t)->Ok_0;
        lemma_globals_keep(t, g);
        assert forall|i: int| 0 <= i < s.len() implies match #[trigger] source_of(s[i]) {
            Ok(f) => f.dom().subset_of(m.dom()),
            Err(_) => false,
        } by {
            if i < s.len() - 1 {
                assert(s[i] == t[i]);
            }
        }
    }
}

/// Merging adds up: where every source loads, each alias that any source
/// defines, global or local, is defined in the result.
pub proof fn lemma_merge_keeps_every_alias(
    globals: Seq<Option<Seq<char>>>,
    local: Option<Seq<char>>,
    merged: Map<Seq<char>, Seq<char>>,
)
    requires
        load_of(globals, local) == Ok::<Map<Seq<char>, Seq<char>>, ConfigError>(merged),
    ensures
        forall|i: int| 0 <= i < globals.len() ==> match #[trigger] source_of(globals[i]) {
            Ok(f) => f.dom().subset_of(merged.dom()),
            Err(_) => false,
        },
        match source_of(local) {
            Ok(l) => l.dom().subset_of(merged.dom()),
            Err(_) => false,
        },
{
    lemma_globals_keep(globals, globals_of(globals)->Ok_0);
}

/// Reading the same configuration text twice gives the same outcome: equal
/// mappings, or the same error.
pub proof fn lemma_load_idempotent(
    text: Seq<char>,
    first: Result<AliasMap, ConfigError>,
    second: Result<AliasMap, ConfigError>,
)
    requires
        loaded_as(first, config_of(text)),
        loaded_as(second, config_of(text)),
    ensures
        match (first, second) {
            (Ok(a), Ok(b)) => a@ == b@,
            (Err(x), Err(y)) => x == y,
            _ => false,
        },
{
}

} // verus!
