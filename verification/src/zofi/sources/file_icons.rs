//! The icons and colours of files.

use vstd::prelude::*;
use vstd::string::*;

use crate::text;

verus! {

/// The icon of a file that is known by its name, in lower case.
pub open spec fn by_name(name: Seq<char>) -> Option<(Seq<char>, u32)> {
    if name == "dockerfile"@ || name == ".dockerignore"@ {
        Some(("icons/file_icons/docker.svg"@, 0x2496ed))
    } else if name == ".gitignore"@ || name == ".gitattributes"@ || name == ".gitmodules"@ {
        Some(("icons/file_icons/git.svg"@, 0xf1502f))
    } else if name == ".editorconfig"@ {
        Some(("icons/file_icons/editorconfig.svg"@, 0x9da3a8))
    } else if name == ".eslintrc"@ || name == ".eslintrc.json"@ || name == ".eslintrc.js"@ {
        Some(("icons/file_icons/eslint.svg"@, 0x4b32c3))
    } else if name == ".prettierrc"@ || name == ".prettierrc.json"@ {
        Some(("icons/file_icons/prettier.svg"@, 0xf7b93e))
    } else if name == "package.json"@ || name == "package-lock.json"@ {
        Some(("icons/file_icons/javascript.svg"@, 0xf1e05a))
    } else if name == "cargo.toml"@ || name == "cargo.lock"@ {
        Some(("icons/file_icons/rust.svg"@, 0xdea584))
    } else if name == "makefile"@ {
        Some(("icons/file_icons/code.svg"@, 0x9da3a8))
    } else {
        None
    }
}

/// The icons of programs, by the extension in lower case.
pub open spec fn by_ext_1(ext: Seq<char>) -> Option<(Seq<char>, u32)> {
    if ext == "rs"@ {
        Some(("icons/file_icons/rust.svg"@, 0xdea584))
    } else if ext == "py"@ {
        Some(("icons/file_icons/python.svg"@, 0x3572a5))
    } else if ext == "js"@ || ext == "mjs"@ || ext == "cjs"@ {
        Some(("icons/file_icons/javascript.svg"@, 0xf1e05a))
    } else if ext == "ts"@ {
        Some(("icons/file_icons/typescript.svg"@, 0x3178c6))
    } else if ext == "tsx"@ || ext == "jsx"@ {
        Some(("icons/file_icons/react.svg"@, 0x61dafb))
    } else if ext == "go"@ {
        Some(("icons/file_icons/go.svg"@, 0x00add8))
    } else if ext == "rb"@ {
        Some(("icons/file_icons/ruby.svg"@, 0xcc342d))
    } else if ext == "java"@ {
        Some(("icons/file_icons/java.svg"@, 0xb07219))
    } else if ext == "kt"@ || ext == "kts"@ {
        Some(("icons/file_icons/kotlin.svg"@, 0xa97bff))
    } else if ext == "swift"@ {
        Some(("icons/file_icons/swift.svg"@, 0xf05138))
    } else if ext == "c"@ || ext == "h"@ {
        Some(("icons/file_icons/c.svg"@, 0x555555))
    } else if ext == "cpp"@ || ext == "cc"@ || ext == "cxx"@ || ext == "hpp"@ || ext == "hh"@ || ext == "hxx"@ {
        Some(("icons/file_icons/cpp.svg"@, 0xf34b7d))
    } else if ext == "lua"@ || ext == "luau"@ {
        Some(("icons/file_icons/lua.svg"@, 0x000080))
    } else if ext == "scala"@ || ext == "sc"@ {
        Some(("icons/file_icons/scala.svg"@, 0xc22d40))
    } else if ext == "ex"@ || ext == "exs"@ {
        Some(("icons/file_icons/elixir.svg"@, 0x9268bf))
    } else if ext == "elm"@ {
        Some(("icons/file_icons/elm.svg"@, 0x60b5cc))
    } else if ext == "erl"@ || ext == "hrl"@ {
        Some(("icons/file_icons/erlang.svg"@, 0xb83998))
    } else if ext == "hs"@ || ext == "lhs"@ {
        Some(("icons/file_icons/haskell.svg"@, 0x5e5086))
    } else if ext == "ml"@ || ext == "mli"@ {
        Some(("icons/file_icons/ocaml.svg"@, 0xee6a1a))
    } else {
        None
    }
}

/// The icons of more programs and what they are written with, by the extension in lower case.
pub open spec fn by_ext_2(ext: Seq<char>) -> Option<(Seq<char>, u32)> {
    if ext == "fs"@ || ext == "fsx"@ || ext == "fsi"@ {
        Some(("icons/file_icons/fsharp.svg"@, 0xb845fc))
    } else if ext == "dart"@ {
        Some(("icons/file_icons/dart.svg"@, 0x00b4ab))
    } else if ext == "nim"@ {
        Some(("icons/file_icons/nim.svg"@, 0xffe953))
    } else if ext == "nix"@ {
        Some(("icons/file_icons/nix.svg"@, 0x5277c3))
    } else if ext == "zig"@ {
        Some(("icons/file_icons/zig.svg"@, 0xec915c))
    } else if ext == "v"@ {
        Some(("icons/file_icons/v.svg"@, 0x4f87c4))
    } else if ext == "vy"@ {
        Some(("icons/file_icons/vyper.svg"@, 0x3a82c4))
    } else if ext == "jl"@ {
        Some(("icons/file_icons/julia.svg"@, 0xa270ba))
    } else if ext == "r"@ {
        Some(("icons/file_icons/r.svg"@, 0x198ce7))
    } else if ext == "php"@ {
        Some(("icons/file_icons/php.svg"@, 0x777bb4))
    } else if ext == "tcl"@ {
        Some(("icons/file_icons/tcl.svg"@, 0xe4cc98))
    } else if ext == "wgsl"@ {
        Some(("icons/file_icons/wgsl.svg"@, 0x1a5490))
    } else if ext == "metal"@ {
        Some(("icons/file_icons/metal.svg"@, 0x9c1f1f))
    } else if ext == "tf"@ || ext == "tfvars"@ {
        Some(("icons/file_icons/terraform.svg"@, 0x844fba))
    } else if ext == "hcl"@ {
        Some(("icons/file_icons/hcl.svg"@, 0x844fba))
    } else if ext == "sh"@ || ext == "zsh"@ || ext == "bash"@ || ext == "fish"@ {
        Some(("icons/file_icons/terminal.svg"@, 0x4eaa25))
    } else if ext == "ipynb"@ {
        Some(("icons/file_icons/jupyter.svg"@, 0xf37726))
    } else if ext == "html"@ || ext == "htm"@ {
        Some(("icons/file_icons/html.svg"@, 0xe34c26))
    } else if ext == "css"@ {
        Some(("icons/file_icons/css.svg"@, 0x1572b6))
    } else {
        None
    }
}

/// The icons of data, documents and media, by the extension in lower case.
pub open spec fn by_ext_3(ext: Seq<char>) -> Option<(Seq<char>, u32)> {
    if ext == "scss"@ || ext == "sass"@ {
        Some(("icons/file_icons/sass.svg"@, 0xcd6799))
    } else if ext == "vue"@ {
        Some(("icons/file_icons/vue.svg"@, 0x4fc08d))
    } else if ext == "astro"@ {
        Some(("icons/file_icons/astro.svg"@, 0xff5d01))
    } else if ext == "graphql"@ || ext == "gql"@ {
        Some(("icons/file_icons/graphql.svg"@, 0xe10098))
    } else if ext == "toml"@ {
        Some(("icons/file_icons/toml.svg"@, 0x9c4221))
    } else if ext == "yaml"@ || ext == "yml"@ {
        Some(("icons/file_icons/yaml.svg"@, 0xcb171e))
    } else if ext == "json"@ || ext == "jsonc"@ {
        Some(("icons/file_icons/code.svg"@, 0xf1e05a))
    } else if ext == "ini"@ || ext == "conf"@ || ext == "cfg"@ {
        Some(("icons/file_icons/code.svg"@, 0x9da3a8))
    } else if ext == "kdl"@ {
        Some(("icons/file_icons/kdl.svg"@, 0x6c8ebf))
    } else if ext == "md"@ || ext == "markdown"@ {
        Some(("icons/file_icons/code.svg"@, 0x519aba))
    } else if ext == "txt"@ || ext == "rst"@ || ext == "org"@ || ext == "tex"@ || ext == "log"@ {
        Some(("icons/file.svg"@, 0xb0b8c0))
    } else if ext == "pdf"@ || ext == "epub"@ || ext == "mobi"@ {
        Some(("icons/file_doc.svg"@, 0xe85a4f))
    } else if ext == "png"@ || ext == "jpg"@ || ext == "jpeg"@ || ext == "gif"@ || ext == "webp"@ || ext == "svg"@ || ext == "bmp"@ || ext == "ico"@ || ext == "tiff"@ {
        Some(("icons/file_icons/image.svg"@, 0xa074c4))
    } else if ext == "mp3"@ || ext == "wav"@ || ext == "flac"@ || ext == "ogg"@ || ext == "m4a"@ || ext == "opus"@ || ext == "aac"@ {
        Some(("icons/file_icons/audio.svg"@, 0xee5396))
    } else if ext == "mp4"@ || ext == "mkv"@ || ext == "avi"@ || ext == "mov"@ || ext == "webm"@ || ext == "m4v"@ {
        Some(("icons/file_icons/video.svg"@, 0xff8a65))
    } else if ext == "zip"@ || ext == "tar"@ || ext == "gz"@ || ext == "bz2"@ || ext == "xz"@ || ext == "7z"@ || ext == "rar"@ || ext == "tgz"@ || ext == "zst"@ {
        Some(("icons/file_icons/archive.svg"@, 0xa1887f))
    } else if ext == "lock"@ {
        Some(("icons/file_icons/lock.svg"@, 0x9da3a8))
    } else if ext == "diff"@ || ext == "patch"@ {
        Some(("icons/file_icons/diff.svg"@, 0x4eaa25))
    } else if ext == "ttf"@ || ext == "otf"@ || ext == "woff"@ || ext == "woff2"@ {
        Some(("icons/file_icons/font.svg"@, 0xc0c0d0))
    } else if ext == "db"@ || ext == "sqlite"@ || ext == "sqlite3"@ {
        Some(("icons/file_icons/database.svg"@, 0x6c8ebf))
    } else if ext == "ai"@ {
        Some(("icons/file_icons/ai.svg"@, 0xff7c00))
    } else {
        None
    }
}

/// The icon of a file and its colour: directories have their own, some files
/// are known by their names, others by their extensions.
pub open spec fn icon_of(name: Seq<char>, ext: Seq<char>, is_dir: bool) -> (Seq<char>, u32) {
    let n = text::ascii_lower(name);
    let e = text::ascii_lower(ext);
    if is_dir {
        ("icons/file_icons/folder.svg"@, 0xe2c275)
    } else if let Some(r) = by_name(n) {
        r
    } else if let Some(r) = by_ext_1(e) {
        r
    } else if let Some(r) = by_ext_2(e) {
        r
    } else if let Some(r) = by_ext_3(e) {
        r
    } else {
        ("icons/file_icons/file.svg"@, 0x9da3a8)
    }
}

/// An icon behind an option.
pub open spec fn icon_view(r: Option<(&'static str, u32)>) -> Option<(Seq<char>, u32)> {
    match r {
        Some((path, color)) => Some((path@, color)),
        None => None,
    }
}

fn find_by_name(name: &str) -> (r: Option<(&'static str, u32)>)
    ensures
        icon_view(r) == by_name(name@),
{
    if text::str_eq(name, "dockerfile") || text::str_eq(name, ".dockerignore") {
        Some(("icons/file_icons/docker.svg", 0x2496ed))
    } else if text::str_eq(name, ".gitignore") || text::str_eq(name, ".gitattributes") || text::str_eq(name, ".gitmodules") {
        Some(("icons/file_icons/git.svg", 0xf1502f))
    } else if text::str_eq(name, ".editorconfig") {
        Some(("icons/file_icons/editorconfig.svg", 0x9da3a8))
    } else if text::str_eq(name, ".eslintrc") || text::str_eq(name, ".eslintrc.json") || text::str_eq(name, ".eslintrc.js") {
        Some(("icons/file_icons/eslint.svg", 0x4b32c3))
    } else if text::str_eq(name, ".prettierrc") || text::str_eq(name, ".prettierrc.json") {
        Some(("icons/file_icons/prettier.svg", 0xf7b93e))
    } else if text::str_eq(name, "package.json") || text::str_eq(name, "package-lock.json") {
        Some(("icons/file_icons/javascript.svg", 0xf1e05a))
    } else if text::str_eq(name, "cargo.toml") || text::str_eq(name, "cargo.lock") {
        Some(("icons/file_icons/rust.svg", 0xdea584))
    } else if text::str_eq(name, "makefile") {
        Some(("icons/file_icons/code.svg", 0x9da3a8))
    } else {
        None
    }
}

fn find_by_ext_1(ext: &str) -> (r: Option<(&'static str, u32)>)
    ensures
        icon_view(r) == by_ext_1(ext@),
{
    if text::str_eq(ext, "rs") {
        Some(("icons/file_icons/rust.svg", 0xdea584))
    } else if text::str_eq(ext, "py") {
        Some(("icons/file_icons/python.svg", 0x3572a5))
    } else if text::str_eq(ext, "js") || text::str_eq(ext, "mjs") || text::str_eq(ext, "cjs") {
        Some(("icons/file_icons/javascript.svg", 0xf1e05a))
    } else if text::str_eq(ext, "ts") {
        Some(("icons/file_icons/typescript.svg", 0x3178c6))
    } else if text::str_eq(ext, "tsx") || text::str_eq(ext, "jsx") {
        Some(("icons/file_icons/react.svg", 0x61dafb))
    } else if text::str_eq(ext, "go") {
        Some(("icons/file_icons/go.svg", 0x00add8))
    } else if text::str_eq(ext, "rb") {
        Some(("icons/file_icons/ruby.svg", 0xcc342d))
    } else if text::str_eq(ext, "java") {
        Some(("icons/file_icons/java.svg", 0xb07219))
    } else if text::str_eq(ext, "kt") || text::str_eq(ext, "kts") {
        Some(("icons/file_icons/kotlin.svg", 0xa97bff))
    } else if text::str_eq(ext, "swift") {
        Some(("icons/file_icons/swift.svg", 0xf05138))
    } else if text::str_eq(ext, "c") || text::str_eq(ext, "h") {
        Some(("icons/file_icons/c.svg", 0x555555))
    } else if text::str_eq(ext, "cpp") || text::str_eq(ext, "cc") || text::str_eq(ext, "cxx") || text::str_eq(ext, "hpp") || text::str_eq(ext, "hh") || text::str_eq(ext, "hxx") {
        Some(("icons/file_icons/cpp.svg", 0xf34b7d))
    } else if text::str_eq(ext, "lua") || text::str_eq(ext, "luau") {
        Some(("icons/file_icons/lua.svg", 0x000080))
    } else if text::str_eq(ext, "scala") || text::str_eq(ext, "sc") {
        Some(("icons/file_icons/scala.svg", 0xc22d40))
    } else if text::str_eq(ext, "ex") || text::str_eq(ext, "exs") {
        Some(("icons/file_icons/elixir.svg", 0x9268bf))
    } else if text::str_eq(ext, "elm") {
        Some(("icons/file_icons/elm.svg", 0x60b5cc))
    } else if text::str_eq(ext, "erl") || text::str_eq(ext, "hrl") {
        Some(("icons/file_icons/erlang.svg", 0xb83998))
    } else if text::str_eq(ext, "hs") || text::str_eq(ext, "lhs") {
        Some(("icons/file_icons/haskell.svg", 0x5e5086))
    } else if text::str_eq(ext, "ml") || text::str_eq(ext, "mli") {
        Some(("icons/file_icons/ocaml.svg", 0xee6a1a))
    } else {
        None
    }
}

fn find_by_ext_2(ext: &str) -> (r: Option<(&'static str, u32)>)
    ensures
        icon_view(r) == by_ext_2(ext@),
{
    if text::str_eq(ext, "fs") || text::str_eq(ext, "fsx") || text::str_eq(ext, "fsi") {
        Some(("icons/file_icons/fsharp.svg", 0xb845fc))
    } else if text::str_eq(ext, "dart") {
        Some(("icons/file_icons/dart.svg", 0x00b4ab))
    } else if text::str_eq(ext, "nim") {
        Some(("icons/file_icons/nim.svg", 0xffe953))
    } else if text::str_eq(ext, "nix") {
        Some(("icons/file_icons/nix.svg", 0x5277c3))
    } else if text::str_eq(ext, "zig") {
        Some(("icons/file_icons/zig.svg", 0xec915c))
    } else if text::str_eq(ext, "v") {
        Some(("icons/file_icons/v.svg", 0x4f87c4))
    } else if text::str_eq(ext, "vy") {
        Some(("icons/file_icons/vyper.svg", 0x3a82c4))
    } else if text::str_eq(ext, "jl") {
        Some(("icons/file_icons/julia.svg", 0xa270ba))
    } else if text::str_eq(ext, "r") {
        Some(("icons/file_icons/r.svg", 0x198ce7))
    } else if text::str_eq(ext, "php") {
        Some(("icons/file_icons/php.svg", 0x777bb4))
    } else if text::str_eq(ext, "tcl") {
        Some(("icons/file_icons/tcl.svg", 0xe4cc98))
    } else if text::str_eq(ext, "wgsl") {
        Some(("icons/file_icons/wgsl.svg", 0x1a5490))
    } else if text::str_eq(ext, "metal") {
        Some(("icons/file_icons/metal.svg", 0x9c1f1f))
    } else if text::str_eq(ext, "tf") || text::str_eq(ext, "tfvars") {
        Some(("icons/file_icons/terraform.svg", 0x844fba))
    } else if text::str_eq(ext, "hcl") {
        Some(("icons/file_icons/hcl.svg", 0x844fba))
    } else if text::str_eq(ext, "sh") || text::str_eq(ext, "zsh") || text::str_eq(ext, "bash") || text::str_eq(ext, "fish") {
        Some(("icons/file_icons/terminal.svg", 0x4eaa25))
    } else if text::str_eq(ext, "ipynb") {
        Some(("icons/file_icons/jupyter.svg", 0xf37726))
    } else if text::str_eq(ext, "html") || text::str_eq(ext, "htm") {
        Some(("icons/file_icons/html.svg", 0xe34c26))
    } else if text::str_eq(ext, "css") {
        Some(("icons/file_icons/css.svg", 0x1572b6))
    } else {
        None
    }
}

fn find_by_ext_3(ext: &str) -> (r: Option<(&'static str, u32)>)
    ensures
        icon_view(r) == by_ext_3(ext@),
{
    if text::str_eq(ext, "scss") || text::str_eq(ext, "sass") {
        Some(("icons/file_icons/sass.svg", 0xcd6799))
    } else if text::str_eq(ext, "vue") {
        Some(("icons/file_icons/vue.svg", 0x4fc08d))
    } else if text::str_eq(ext, "astro") {
        Some(("icons/file_icons/astro.svg", 0xff5d01))
    } else if text::str_eq(ext, "graphql") || text::str_eq(ext, "gql") {
        Some(("icons/file_icons/graphql.svg", 0xe10098))
    } else if text::str_eq(ext, "toml") {
        Some(("icons/file_icons/toml.svg", 0x9c4221))
    } else if text::str_eq(ext, "yaml") || text::str_eq(ext, "yml") {
        Some(("icons/file_icons/yaml.svg", 0xcb171e))
    } else if text::str_eq(ext, "json") || text::str_eq(ext, "jsonc") {
        Some(("icons/file_icons/code.svg", 0xf1e05a))
    } else if text::str_eq(ext, "ini") || text::str_eq(ext, "conf") || text::str_eq(ext, "cfg") {
        Some(("icons/file_icons/code.svg", 0x9da3a8))
    } else if text::str_eq(ext, "kdl") {
        Some(("icons/file_icons/kdl.svg", 0x6c8ebf))
    } else if text::str_eq(ext, "md") || text::str_eq(ext, "markdown") {
        Some(("icons/file_icons/code.svg", 0x519aba))
    } else if text::str_eq(ext, "txt") || text::str_eq(ext, "rst") || text::str_eq(ext, "org") || text::str_eq(ext, "tex") || text::str_eq(ext, "log") {
        Some(("icons/file.svg", 0xb0b8c0))
    } else if text::str_eq(ext, "pdf") || text::str_eq(ext, "epub") || text::str_eq(ext, "mobi") {
        Some(("icons/file_doc.svg", 0xe85a4f))
    } else if text::str_eq(ext, "png") || text::str_eq(ext, "jpg") || text::str_eq(ext, "jpeg") || text::str_eq(ext, "gif") || text::str_eq(ext, "webp") || text::str_eq(ext, "svg") || text::str_eq(ext, "bmp") || text::str_eq(ext, "ico") || text::str_eq(ext, "tiff") {
        Some(("icons/file_icons/image.svg", 0xa074c4))
    } else if text::str_eq(ext, "mp3") || text::str_eq(ext, "wav") || text::str_eq(ext, "flac") || text::str_eq(ext, "ogg") || text::str_eq(ext, "m4a") || text::str_eq(ext, "opus") || text::str_eq(ext, "aac") {
        Some(("icons/file_icons/audio.svg", 0xee5396))
    } else if text::str_eq(ext, "mp4") || text::str_eq(ext, "mkv") || text::str_eq(ext, "avi") || text::str_eq(ext, "mov") || text::str_eq(ext, "webm") || text::str_eq(ext, "m4v") {
        Some(("icons/file_icons/video.svg", 0xff8a65))
    } else if text::str_eq(ext, "zip") || text::str_eq(ext, "tar") || text::str_eq(ext, "gz") || text::str_eq(ext, "bz2") || text::str_eq(ext, "xz") || text::str_eq(ext, "7z") || text::str_eq(ext, "rar") || text::str_eq(ext, "tgz") || text::str_eq(ext, "zst") {
        Some(("icons/file_icons/archive.svg", 0xa1887f))
    } else if text::str_eq(ext, "lock") {
        Some(("icons/file_icons/lock.svg", 0x9da3a8))
    } else if text::str_eq(ext, "diff") || text::str_eq(ext, "patch") {
        Some(("icons/file_icons/diff.svg", 0x4eaa25))
    } else if text::str_eq(ext, "ttf") || text::str_eq(ext, "otf") || text::str_eq(ext, "woff") || text::str_eq(ext, "woff2") {
        Some(("icons/file_icons/font.svg", 0xc0c0d0))
    } else if text::str_eq(ext, "db") || text::str_eq(ext, "sqlite") || text::str_eq(ext, "sqlite3") {
        Some(("icons/file_icons/database.svg", 0x6c8ebf))
    } else if text::str_eq(ext, "ai") {
        Some(("icons/file_icons/ai.svg", 0xff7c00))
    } else {
        None
    }
}

/// The icon of a file and its colour.
pub fn icon_for(name: &str, ext: &str, is_dir: bool) -> (r: (&'static str, u32))
    ensures
        (r.0@, r.1) == icon_of(name@, ext@, is_dir),
{
    if is_dir {
        return ("icons/file_icons/folder.svg", 0xe2c275);
    }
    let n = text::to_ascii_lower(name);
    let e = text::to_ascii_lower(ext);
    if let Some(r) = find_by_name(n.as_str()) {
        return r;
    }
    if let Some(r) = find_by_ext_1(e.as_str()) {
        return r;
    }
    if let Some(r) = find_by_ext_2(e.as_str()) {
        return r;
    }
    if let Some(r) = find_by_ext_3(e.as_str()) {
        return r;
    }
    ("icons/file_icons/file.svg", 0x9da3a8)
}

/// A directory has the folder's picture; a file's is chosen by its name first and
/// then by its extension, both in whatever case; a file that nothing is known of
/// has the plain one.
pub proof fn law_file_pictures(
    name: Seq<char>,
    ext: Seq<char>,
    other_name: Seq<char>,
    other_ext: Seq<char>,
    is_dir: bool,
)
    ensures
        icon_of(name, ext, true) == ("icons/file_icons/folder.svg"@, 0xe2c275u32),
        text::ascii_lower(name) == text::ascii_lower(other_name) && text::ascii_lower(ext)
            == text::ascii_lower(other_ext) ==> icon_of(name, ext, is_dir) == icon_of(
            other_name,
            other_ext,
            is_dir,
        ),
        by_name(text::ascii_lower(name)) is Some ==> icon_of(name, ext, false) == by_name(
            text::ascii_lower(name),
        )->0,
        by_name(text::ascii_lower(name)) is None && by_name(text::ascii_lower(other_name)) is None
            ==> icon_of(name, ext, is_dir) == icon_of(other_name, ext, is_dir),
{
}

} // verus!
