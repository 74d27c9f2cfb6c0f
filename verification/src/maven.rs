//! Maven coordinates (`group:artifact:version[:classifier][@ext]`) and the
//! repository-relative paths they name.
use vstd::prelude::*;
use crate::paths::{join, path_join};
use crate::text::{
    append, append_str, chars_of, copy, find_char, index_of, lemma_index_of,
    lemma_split_nonempty, replace, replace_char, slice, split, split_on, string_of, views, lacks,
    lemma_split_lacks, lemma_replace_lacks, lemma_concat_lacks,
};

verus! {

/// The repository path of `group/artifact/version/file`, with the dots of
/// the group turned into folders.
pub open spec fn layout(parts: Seq<Seq<char>>, file: Seq<char>) -> Seq<char> {
    join(join(join(replace(parts[0], seq!['.'], seq!['/']), parts[1]), parts[2]), file)
}

/// The coordinate and extension of a Maven name: split at the first `@`,
/// with extension `jar` when there is none.
pub open spec fn coord_and_ext(name: Seq<char>) -> (Seq<char>, Seq<char>) {
    match index_of(name, '@') {
        Some(i) => (name.take(i), name.skip(i + 1)),
        None => (name, "jar"@),
    }
}

/// The repository-relative path of a Maven name with an optional
/// classifier and `@ext`; names with fewer than three fields stay as they are.
pub open spec fn maven_rel(name: Seq<char>) -> Seq<char> {
    let (coord, ext) = coord_and_ext(name);
    let parts = split(coord, ':');
    if parts.len() < 3 {
        name
    } else {
        let file = if parts.len() > 3 {
            parts[1] + "-"@ + parts[2] + "-"@ + parts[3] + "."@ + ext
        } else {
            parts[1] + "-"@ + parts[2] + "."@ + ext
        };
        layout(parts, file)
    }
}

/// The repository-relative path of a plain Maven name (no `@ext`) of a jar:
/// `artifact-version[-classifier].jar`.
pub open spec fn maven_jar_rel(name: Seq<char>) -> Seq<char> {
    let parts = split(name, ':');
    if parts.len() < 3 {
        name
    } else {
        let file = if parts.len() >= 4 {
            parts[1] + "-"@ + parts[2] + "-"@ + parts[3] + ".jar"@
        } else {
            parts[1] + "-"@ + parts[2] + ".jar"@
        };
        layout(parts, file)
    }
}

fn layout_exec(parts: &Vec<Vec<char>>, file: &Vec<char>) -> (r: Vec<char>)
    requires
        parts.len() >= 3,
    ensures
        r@ == layout(views(parts@), file@),
{
    let group = replace_char(&parts[0], '.', '/');
    let a = path_join(&group, &parts[1]);
    let b = path_join(&a, &parts[2]);
    path_join(&b, file)
}

/// The repository-relative path of a Maven name (see [`maven_rel`]).
pub fn maven_rel_path(name: &str) -> (r: String)
    ensures
        r@ == maven_rel(name@),
{
    let n = chars_of(name);
    let (coord, ext) = match find_char(&n, '@') {
        Some(i) => {
            proof {
                lemma_index_of(n@, '@');
            }
            (slice(&n, 0, i), slice(&n, i + 1, n.len()))
        },
        None => (copy(&n), chars_of("jar")),
    };
    assert(coord@ == coord_and_ext(n@).0);
    assert(ext@ == coord_and_ext(n@).1);
    let parts = split_on(&coord, ':');
    if parts.len() < 3 {
        return string_of(&n);
    }
    let mut file = copy(&parts[1]);
    append_str(&mut file, "-");
    append(&mut file, &parts[2]);
    if parts.len() > 3 {
        append_str(&mut file, "-");
        append(&mut file, &parts[3]);
    }
    append_str(&mut file, ".");
    append(&mut file, &ext);
    string_of(&layout_exec(&parts, &file))
}

/// The path of a plain Maven jar name (see [`maven_jar_rel`]).
pub fn maven_path(name: &str) -> (r: String)
    ensures
        r@ == maven_jar_rel(name@),
{
    let n = chars_of(name);
    let parts = split_on(&n, ':');
    if parts.len() < 3 {
        return string_of(&n);
    }
    let mut file = copy(&parts[1]);
    append_str(&mut file, "-");
    append(&mut file, &parts[2]);
    if parts.len() >= 4 {
        append_str(&mut file, "-");
        append(&mut file, &parts[3]);
    }
    append_str(&mut file, ".jar");
    string_of(&layout_exec(&parts, &file))
}

proof fn lemma_join_lacks(base: Seq<char>, name: Seq<char>, d: char)
    requires
        lacks(base, d),
        lacks(name, d),
        d != '/',
    ensures
        lacks(join(base, name), d),
{
    lemma_concat_lacks(base, name, d);
    lemma_concat_lacks(base, seq!['/'], d);
    lemma_concat_lacks(base + seq!['/'], name, d);
}

proof fn lemma_file_lacks(parts: Seq<Seq<char>>, ext: Seq<char>, d: char)
    requires
        parts.len() >= 3,
        forall|k: int| 0 <= k < parts.len() ==> lacks(#[trigger] parts[k], d),
        lacks(ext, d),
        lacks("-"@, d),
        lacks("."@, d),
    ensures
        lacks(
            if parts.len() > 3 {
                parts[1] + "-"@ + parts[2] + "-"@ + parts[3] + "."@ + ext
            } else {
                parts[1] + "-"@ + parts[2] + "."@ + ext
            },
            d,
        ),
{
    assert(lacks(parts[1], d));
    assert(lacks(parts[2], d));
    lemma_concat_lacks(parts[1], "-"@, d);
    lemma_concat_lacks(parts[1] + "-"@, parts[2], d);
    if parts.len() > 3 {
        assert(lacks(parts[3], d));
        lemma_concat_lacks(parts[1] + "-"@ + parts[2], "-"@, d);
        lemma_concat_lacks(parts[1] + "-"@ + parts[2] + "-"@, parts[3], d);
        lemma_concat_lacks(parts[1] + "-"@ + parts[2] + "-"@ + parts[3], "."@, d);
        lemma_concat_lacks(parts[1] + "-"@ + parts[2] + "-"@ + parts[3] + "."@, ext, d);
    } else {
        lemma_concat_lacks(parts[1] + "-"@ + parts[2], "."@, d);
        lemma_concat_lacks(parts[1] + "-"@ + parts[2] + "."@, ext, d);
    }
}

/// A Maven path holds no character that its name, `/`, `-`, `.` and `jar`
/// do not hold.
pub proof fn lemma_maven_rel_lacks(name: Seq<char>, d: char)
    requires
        lacks(name, d),
        d != '/',
        d != '-',
        d != '.',
        d != 'j',
        d != 'a',
        d != 'r',
    ensures
        lacks(maven_rel(name), d),
{
    reveal_strlit("jar");
    reveal_strlit("-");
    reveal_strlit(".");
    assert("jar"@.len() == 3);
    assert("-"@.len() == 1);
    assert("."@.len() == 1);
    assert(lacks("jar"@, d));
    assert(lacks("-"@, d));
    assert(lacks("."@, d));
    let ce = coord_and_ext(name);
    let coord = ce.0;
    let ext = ce.1;
    assert(lacks(coord, d) && lacks(ext, d)) by {
        match index_of(name, '@') {
            Some(i) => {
                lemma_index_of(name, '@');
            },
            None => {},
        }
    }
    let parts = split(coord, ':');
    lemma_split_lacks(coord, ':', d);
    if parts.len() >= 3 {
        assert(lacks(parts[0], d));
        assert(lacks(parts[1], d));
        assert(lacks(parts[2], d));
        lemma_replace_lacks(parts[0], seq!['.'], seq!['/'], d);
        lemma_file_lacks(parts, ext, d);
        let file = if parts.len() > 3 {
            parts[1] + "-"@ + parts[2] + "-"@ + parts[3] + "."@ + ext
        } else {
            parts[1] + "-"@ + parts[2] + "."@ + ext
        };
        let g = replace(parts[0], seq!['.'], seq!['/']);
        lemma_join_lacks(g, parts[1], d);
        lemma_join_lacks(join(g, parts[1]), parts[2], d);
        lemma_join_lacks(join(join(g, parts[1]), parts[2]), file, d);
    }
}

} // verus!
