use vstd::prelude::*;

verus! {

/// `base` joined with the relative path `name`: a `/` separates them
/// unless `base` is empty or already ends in one.
pub open spec fn join_path(base: Seq<char>, name: Seq<char>) -> Seq<char> {
    if base.len() == 0 || base.last() == '/' {
        base + name
    } else {
        base + seq!['/'] + name
    }
}

/// File layout of a project root. Pure path derivation: existence and
/// contents are checked when the project is loaded.
#[derive(Debug)]
pub struct ManifestPaths {
    pub root: String,
    pub game_toml: String,
    pub entities_dir: String,
    pub scenes_dir: String,
    pub rules_dir: String,
    pub input_toml: String,
}

fn join(base: &str, name: &str) -> (r: String)
    ensures
        r@ == join_path(base@, name@),
{
    let n = base.unicode_len();
    let mut out = base.to_owned();
    if n > 0 && base.get_char(n - 1) != '/' {
        proof {
            reveal_strlit("/");
        }
        out.append("/");
    }
    out.append(name);
    out
}

impl ManifestPaths {
    /// The layout under `root`.
    pub fn from_root(root: &str) -> (r: Self)
        ensures
            r.root@ == root@,
            r.game_toml@ == join_path(root@, "game.toml"@),
            r.entities_dir@ == join_path(root@, "entities"@),
            r.scenes_dir@ == join_path(root@, "scenes"@),
            r.rules_dir@ == join_path(root@, "rules"@),
            r.input_toml@ == join_path(root@, "input.toml"@),
    {
        ManifestPaths {
            game_toml: join(root, "game.toml"),
            entities_dir: join(root, "entities"),
            scenes_dir: join(root, "scenes"),
            rules_dir: join(root, "rules"),
            input_toml: join(root, "input.toml"),
            root: root.to_owned(),
        }
    }
}

} // verus!
