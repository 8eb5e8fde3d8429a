//! What the strict gates leave out, stated over the names of files.

use vstd::prelude::*;

use crate::diff;
use crate::gates;
use crate::text;
use crate::text_laws;

verus! {

/// Whether the name of a file says that it may hold credentials.
pub open spec fn named_like_a_secret(name: Seq<char>) -> bool {
    ||| text::begins(name, ".env"@)
    ||| text::begins(name, "id_"@)
    ||| text::begins(name, "credentials"@)
    ||| text::ends(name, ".pem"@)
    ||| text::ends(name, ".key"@)
    ||| text::ends(name, ".p12"@)
    ||| text::ends(name, ".pfx"@)
    ||| text::ends(name, ".jks"@)
    ||| name == ".netrc"@
    ||| name == ".npmrc"@
    ||| name == "kubeconfig"@
    ||| name == "secrets.yml"@
    ||| name == "secrets.yaml"@
    ||| text::begins(name, "service-account"@) && text::ends(name, ".json"@)
    ||| text::mentions(name, ".tfstate"@)
}

/// A file may hold credentials exactly where its name says so or its path leads through
/// the directory of keys.
pub proof fn law_secrets_are_known_by_name_and_place(path: Seq<char>)
    ensures
        gates::secret(path) <==> named_like_a_secret(text::file_name(path)) || text::begins(
            path,
            ".ssh"@ + "/"@,
        ) || text::mentions(path, "/"@ + ".ssh"@ + "/"@),
{
    let name = text::file_name(path);
    let a = gates::SECRET_PREFIXES@;
    let b = gates::SECRET_SUFFIXES@;
    let c = gates::SECRET_NAMES@;
    let d = gates::SECRET_DIRECTORIES@;
    assert(a[0]@ == ".env"@ && a[1]@ == "id_"@ && a[2]@ == "credentials"@);
    assert(b[0]@ == ".pem"@ && b[1]@ == ".key"@ && b[2]@ == ".p12"@ && b[3]@ == ".pfx"@ && b[4]@
        == ".jks"@);
    assert(c[0]@ == ".netrc"@ && c[1]@ == ".npmrc"@ && c[2]@ == "kubeconfig"@ && c[3]@
        == "secrets.yml"@ && c[4]@ == "secrets.yaml"@);
    assert(d[0]@ == ".ssh"@);
}

/// Whether a path leads through a directory, at its beginning or further down.
pub open spec fn leads_through(path: Seq<char>, directory: Seq<char>) -> bool {
    text::begins(path, directory + "/"@) || text::mentions(path, "/"@ + directory + "/"@)
}

/// A tool wrote a file exactly where its name says so or its path leads through a
/// directory of dependencies or of build output.
pub proof fn law_tool_output_is_known_by_name_and_place(path: Seq<char>)
    ensures
        gates::tool_output(path) <==> ({
            let name = text::file_name(path);
            ||| text::ends(name, ".min.js"@)
            ||| text::ends(name, ".min.css"@)
            ||| text::ends(name, ".map"@)
            ||| text::ends(name, ".lock"@)
            ||| text::ends(name, ".pb.go"@)
            ||| text::ends(name, ".g.dart"@)
            ||| name == "package-lock.json"@
            ||| name == "pnpm-lock.yaml"@
            ||| name == "go.sum"@
            ||| text::mentions(name, ".generated."@)
            ||| leads_through(path, "node_modules"@)
            ||| leads_through(path, "vendor"@)
            ||| leads_through(path, "dist"@)
            ||| leads_through(path, "build"@)
            ||| leads_through(path, "target"@)
        }),
{
    let a = gates::OUTPUT_SUFFIXES@;
    let b = gates::OUTPUT_NAMES@;
    let c = gates::OUTPUT_DIRECTORIES@;
    assert(a[0]@ == ".min.js"@ && a[1]@ == ".min.css"@ && a[2]@ == ".map"@ && a[3]@ == ".lock"@
        && a[4]@ == ".pb.go"@ && a[5]@ == ".g.dart"@);
    assert(b[0]@ == "package-lock.json"@ && b[1]@ == "pnpm-lock.yaml"@ && b[2]@ == "go.sum"@);
    assert(c[0]@ == "node_modules"@ && c[1]@ == "vendor"@ && c[2]@ == "dist"@ && c[3]@ == "build"@
        && c[4]@ == "target"@);
}

/// Every kind of file that has a priority of its own under a budget is a kind that is
/// reviewed, and so is each of the further kinds, in any directory.
pub proof fn law_known_kinds_are_reviewed(
    dir: Seq<char>,
    stem: Seq<char>,
    ext: Seq<char>,
)
    requires
        !stem.contains('/'),
        !ext.contains('/'),
        !ext.contains('.'),
        text::listed(diff::SOURCE_EXTENSIONS@, text::lowered(ext)) || text::listed(
            diff::DOC_EXTENSIONS@,
            text::lowered(ext),
        ) || text::listed(diff::CONFIG_EXTENSIONS@, text::lowered(ext)) || text::listed(
            gates::MORE_EXTENSIONS@,
            text::lowered(ext),
        ),
    ensures
        gates::reviewable(stem.push('.') + ext),
        gates::reviewable(dir.push('/') + (stem.push('.') + ext)),
{
    text_laws::law_extension_follows_the_last_dot(dir, stem, ext);
}

/// Some files are reviewed for their name alone, whatever follows it.
pub proof fn law_known_names_are_reviewed(dir: Seq<char>, k: int, rest: Seq<char>)
    requires
        0 <= k < gates::REVIEWED_PREFIXES@.len(),
        !(gates::REVIEWED_PREFIXES@[k]@ + rest).contains('/'),
    ensures
        gates::reviewable(dir.push('/') + (gates::REVIEWED_PREFIXES@[k]@ + rest)),
{
    let front = gates::REVIEWED_PREFIXES@[k]@;
    let name = front + rest;
    text_laws::law_file_name_is_the_last_component(dir, name);
    assert(name.subrange(0, front.len() as int) =~= front);
}

} // verus!
