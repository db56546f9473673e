//! The layout of the daemon's home directory: the directories it needs and
//! the files it seeds, relative to that directory.

use vstd::prelude::*;

verus! {

/// The directories of the layout, in creation order.
pub open spec fn layout_dirs() -> Seq<Seq<char>> {
    seq!["registry"@, "views"@, "cache/indexes"@, "cache/projections"@, "logs"@]
}

/// The files of the layout with the contents they are seeded with, in order.
pub open spec fn layout_files() -> Seq<(Seq<char>, Seq<char>)> {
    seq![
        ("config.toml"@, "# leviticus configuration\n\n            version = 1\n            "@),
        (
            "state.json"@,
            "{\n                \"starts\": 0,\n                \"started_at\": 0,\n                \"longest_run\": 0\n                }\n                "@,
        ),
        ("daemon.pid"@, ""@),
        ("socket"@, ""@),
        ("registry/graph.db"@, ""@),
        ("views/default.toml"@, "# Default view\n\n            name = \"default\"\n            "@),
        ("logs/leviticus.log"@, ""@),
    ]
}

/// The view of a list of strings.
pub open spec fn strings_view(v: Seq<String>) -> Seq<Seq<char>> {
    v.map_values(|s: String| s@)
}

/// The view of a list of (path, contents) pairs.
pub open spec fn pairs_view(v: Seq<(String, String)>) -> Seq<(Seq<char>, Seq<char>)> {
    v.map_values(|p: (String, String)| (p.0@, p.1@))
}

/// The directories to create, relative to the daemon's home.
pub fn init_dirs() -> (d: Vec<String>)
    ensures
        strings_view(d@) == layout_dirs(),
{
    let mut d: Vec<String> = Vec::new();
    d.push(String::from_str("registry"));
    d.push(String::from_str("views"));
    d.push(String::from_str("cache/indexes"));
    d.push(String::from_str("cache/projections"));
    d.push(String::from_str("logs"));
    assert(strings_view(d@) =~= layout_dirs());
    d
}

/// The files to seed where they do not exist yet, relative to the daemon's
/// home, with their contents.
pub fn init_files() -> (f: Vec<(String, String)>)
    ensures
        pairs_view(f@) == layout_files(),
{
    let mut f: Vec<(String, String)> = Vec::new();
    f.push(
        (
            String::from_str("config.toml"),
            String::from_str("# leviticus configuration\n\n            version = 1\n            "),
        ),
    );
    f.push(
        (
            String::from_str("state.json"),
            String::from_str(
                "{\n                \"starts\": 0,\n                \"started_at\": 0,\n                \"longest_run\": 0\n                }\n                ",
            ),
        ),
    );
    f.push((String::from_str("daemon.pid"), String::from_str("")));
    f.push((String::from_str("socket"), String::from_str("")));
    f.push((String::from_str("registry/graph.db"), String::from_str("")));
    f.push(
        (
            String::from_str("views/default.toml"),
            String::from_str("# Default view\n\n            name = \"default\"\n            "),
        ),
    );
    f.push((String::from_str("logs/leviticus.log"), String::from_str("")));
    assert(pairs_view(f@) =~= layout_files());
    f
}

} // verus!
