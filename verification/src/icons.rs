//! Nerd Font icons for files.

use vstd::prelude::*;

use crate::scan::{
    after_last, behind_last, lacks, lemma_found_last, lemma_same_extension_but_for_case,
};
use crate::text::{lemma_same_in_lower_case, lowercase, same_but_for_case, text_eq};

verus! {

/// The icon of a directory, by its name.
pub open spec fn directory_icon(s: Seq<char>) -> char {
    if s == ".git"@ {
        '\u{e702}'
    } else if s == "node_modules"@ {
        '\u{e5fa}'
    } else {
        '\u{f07b}'
    }
}

/// The icon that goes with a whole file name in lower case, if there is one.
pub open spec fn whole_name_icon(s: Seq<char>) -> Option<char> {
    if s == "makefile"@ || s == "gnumakefile"@ {
        Some('\u{e779}')
    } else if s == "dockerfile"@ {
        Some('\u{e7b0}')
    } else if s == "cargo.toml"@ || s == "cargo.lock"@ {
        Some('\u{e7a8}')
    } else if s == ".gitignore"@ || s == ".gitconfig"@ || s == ".gitmodules"@ || s == ".gitattributes"@ {
        Some('\u{e702}')
    } else if s == ".env"@ || s == ".envrc"@ {
        Some('\u{f462}')
    } else {
        None
    }
}

/// The icon that goes with an extension in lower case.
pub open spec fn extension_icon(s: Seq<char>) -> char {
    if s == "rs"@ {
        '\u{e7a8}'
    } else if s == "py"@ || s == "pyw"@ || s == "pyc"@ || s == "pyi"@ {
        '\u{e73c}'
    } else if s == "js"@ || s == "mjs"@ || s == "cjs"@ {
        '\u{e74e}'
    } else if s == "ts"@ || s == "mts"@ || s == "cts"@ {
        '\u{e628}'
    } else if s == "jsx"@ || s == "tsx"@ {
        '\u{e7ba}'
    } else if s == "html"@ || s == "htm"@ {
        '\u{e736}'
    } else if s == "css"@ || s == "scss"@ || s == "sass"@ || s == "less"@ {
        '\u{e749}'
    } else if s == "json"@ || s == "jsonc"@ || s == "json5"@ {
        '\u{e60b}'
    } else if s == "yaml"@ || s == "yml"@ || s == "toml"@ {
        '\u{e6d7}'
    } else if s == "md"@ || s == "markdown"@ || s == "mdx"@ {
        '\u{e73e}'
    } else if s == "pdf"@ {
        '\u{f1c1}'
    } else if s == "png"@ || s == "jpg"@ || s == "jpeg"@ || s == "gif"@ || s == "svg"@ || s == "webp"@ || s == "bmp"@ || s == "ico"@ || s == "tiff"@ || s == "avif"@ {
        '\u{f1c5}'
    } else if s == "mp3"@ || s == "flac"@ || s == "wav"@ || s == "ogg"@ || s == "m4a"@ || s == "aac"@ || s == "opus"@ {
        '\u{f001}'
    } else if s == "mp4"@ || s == "mkv"@ || s == "avi"@ || s == "mov"@ || s == "webm"@ || s == "flv"@ || s == "wmv"@ {
        '\u{f03d}'
    } else if s == "zip"@ || s == "tar"@ || s == "gz"@ || s == "bz2"@ || s == "xz"@ || s == "7z"@ || s == "rar"@ || s == "zst"@ || s == "lz4"@ || s == "lzma"@ {
        '\u{f1c6}'
    } else if s == "sh"@ || s == "bash"@ || s == "zsh"@ || s == "fish"@ || s == "ksh"@ {
        '\u{f489}'
    } else if s == "c"@ || s == "h"@ {
        '\u{e61e}'
    } else if s == "cpp"@ || s == "cc"@ || s == "cxx"@ || s == "hpp"@ || s == "hxx"@ {
        '\u{e61d}'
    } else if s == "go"@ {
        '\u{e626}'
    } else if s == "rb"@ || s == "erb"@ {
        '\u{e739}'
    } else if s == "java"@ || s == "class"@ || s == "jar"@ {
        '\u{e738}'
    } else if s == "kt"@ || s == "kts"@ {
        '\u{e634}'
    } else if s == "hs"@ || s == "lhs"@ {
        '\u{e777}'
    } else if s == "lua"@ {
        '\u{e620}'
    } else if s == "vim"@ {
        '\u{e62b}'
    } else if s == "conf"@ || s == "config"@ || s == "cfg"@ || s == "ini"@ || s == "nvim"@ {
        '\u{e615}'
    } else if s == "lock"@ {
        '\u{f023}'
    } else if s == "log"@ {
        '\u{f18d}'
    } else if s == "txt"@ {
        '\u{f15c}'
    } else if s == "xml"@ || s == "xsl"@ || s == "xsd"@ {
        '\u{e619}'
    } else if s == "sql"@ {
        '\u{f1c0}'
    } else if s == "db"@ || s == "sqlite"@ || s == "sqlite3"@ {
        '\u{f1c0}'
    } else if s == "php"@ {
        '\u{e73d}'
    } else if s == "cs"@ {
        '\u{f031}'
    } else if s == "swift"@ {
        '\u{e755}'
    } else if s == "dart"@ {
        '\u{e798}'
    } else if s == "ex"@ || s == "exs"@ {
        '\u{e62d}'
    } else if s == "erl"@ || s == "hrl"@ {
        '\u{e7b1}'
    } else if s == "zig"@ {
        '\u{e6a9}'
    } else if s == "nix"@ {
        '\u{f313}'
    } else if s == "tf"@ || s == "tfvars"@ {
        '\u{e69a}'
    } else if s == "vimrc"@ {
        '\u{e62b}'
    } else {
        '\u{f15b}'
    }
}

/// The icon of an entry, from its name and, both in lower case, that name and
/// its extension. The whole name decides before the extension does.
pub open spec fn icon_from(
    name: Seq<char>,
    is_dir: bool,
    lower_name: Seq<char>,
    lower_ext: Seq<char>,
) -> char {
    if is_dir {
        directory_icon(name)
    } else {
        match whole_name_icon(lower_name) {
            Some(c) => c,
            None => extension_icon(lower_ext),
        }
    }
}

/// The icon of an entry. The extension is what follows the last full stop, or
/// the whole name where there is none.
pub open spec fn icon(name: Seq<char>, is_dir: bool) -> char {
    icon_from(name, is_dir, lowercase(name), lowercase(after_last(name, '.')))
}

/// Looks up a directory's icon.
fn find_directory_icon(s: &str) -> (c: char)
    ensures
        c == directory_icon(s@),
{
    if text_eq(s, ".git") {
        '\u{e702}'
    } else if text_eq(s, "node_modules") {
        '\u{e5fa}'
    } else {
        '\u{f07b}'
    }
}

/// Looks up the icon of a whole name.
fn find_whole_name_icon(s: &str) -> (c: Option<char>)
    ensures
        c == whole_name_icon(s@),
{
    if text_eq(s, "makefile") || text_eq(s, "gnumakefile") {
        Some('\u{e779}')
    } else if text_eq(s, "dockerfile") {
        Some('\u{e7b0}')
    } else if text_eq(s, "cargo.toml") || text_eq(s, "cargo.lock") {
        Some('\u{e7a8}')
    } else if text_eq(s, ".gitignore") || text_eq(s, ".gitconfig") || text_eq(s, ".gitmodules") || text_eq(s, ".gitattributes") {
        Some('\u{e702}')
    } else if text_eq(s, ".env") || text_eq(s, ".envrc") {
        Some('\u{f462}')
    } else {
        None
    }
}

/// Looks up the icon of an extension.
fn find_extension_icon(s: &str) -> (c: char)
    ensures
        c == extension_icon(s@),
{
    if text_eq(s, "rs") {
        '\u{e7a8}'
    } else if text_eq(s, "py") || text_eq(s, "pyw") || text_eq(s, "pyc") || text_eq(s, "pyi") {
        '\u{e73c}'
    } else if text_eq(s, "js") || text_eq(s, "mjs") || text_eq(s, "cjs") {
        '\u{e74e}'
    } else if text_eq(s, "ts") || text_eq(s, "mts") || text_eq(s, "cts") {
        '\u{e628}'
    } else if text_eq(s, "jsx") || text_eq(s, "tsx") {
        '\u{e7ba}'
    } else if text_eq(s, "html") || text_eq(s, "htm") {
        '\u{e736}'
    } else if text_eq(s, "css") || text_eq(s, "scss") || text_eq(s, "sass") || text_eq(s, "less") {
        '\u{e749}'
    } else if text_eq(s, "json") || text_eq(s, "jsonc") || text_eq(s, "json5") {
        '\u{e60b}'
    } else if text_eq(s, "yaml") || text_eq(s, "yml") || text_eq(s, "toml") {
        '\u{e6d7}'
    } else if text_eq(s, "md") || text_eq(s, "markdown") || text_eq(s, "mdx") {
        '\u{e73e}'
    } else if text_eq(s, "pdf") {
        '\u{f1c1}'
    } else if text_eq(s, "png") || text_eq(s, "jpg") || text_eq(s, "jpeg") || text_eq(s, "gif") || text_eq(s, "svg") || text_eq(s, "webp") || text_eq(s, "bmp") || text_eq(s, "ico") || text_eq(s, "tiff") || text_eq(s, "avif") {
        '\u{f1c5}'
    } else if text_eq(s, "mp3") || text_eq(s, "flac") || text_eq(s, "wav") || text_eq(s, "ogg") || text_eq(s, "m4a") || text_eq(s, "aac") || text_eq(s, "opus") {
        '\u{f001}'
    } else if text_eq(s, "mp4") || text_eq(s, "mkv") || text_eq(s, "avi") || text_eq(s, "mov") || text_eq(s, "webm") || text_eq(s, "flv") || text_eq(s, "wmv") {
        '\u{f03d}'
    } else if text_eq(s, "zip") || text_eq(s, "tar") || text_eq(s, "gz") || text_eq(s, "bz2") || text_eq(s, "xz") || text_eq(s, "7z") || text_eq(s, "rar") || text_eq(s, "zst") || text_eq(s, "lz4") || text_eq(s, "lzma") {
        '\u{f1c6}'
    } else if text_eq(s, "sh") || text_eq(s, "bash") || text_eq(s, "zsh") || text_eq(s, "fish") || text_eq(s, "ksh") {
        '\u{f489}'
    } else if text_eq(s, "c") || text_eq(s, "h") {
        '\u{e61e}'
    } else if text_eq(s, "cpp") || text_eq(s, "cc") || text_eq(s, "cxx") || text_eq(s, "hpp") || text_eq(s, "hxx") {
        '\u{e61d}'
    } else if text_eq(s, "go") {
        '\u{e626}'
    } else if text_eq(s, "rb") || text_eq(s, "erb") {
        '\u{e739}'
    } else if text_eq(s, "java") || text_eq(s, "class") || text_eq(s, "jar") {
        '\u{e738}'
    } else if text_eq(s, "kt") || text_eq(s, "kts") {
        '\u{e634}'
    } else if text_eq(s, "hs") || text_eq(s, "lhs") {
        '\u{e777}'
    } else if text_eq(s, "lua") {
        '\u{e620}'
    } else if text_eq(s, "vim") {
        '\u{e62b}'
    } else if text_eq(s, "conf") || text_eq(s, "config") || text_eq(s, "cfg") || text_eq(s, "ini") || text_eq(s, "nvim") {
        '\u{e615}'
    } else if text_eq(s, "lock") {
        '\u{f023}'
    } else if text_eq(s, "log") {
        '\u{f18d}'
    } else if text_eq(s, "txt") {
        '\u{f15c}'
    } else if text_eq(s, "xml") || text_eq(s, "xsl") || text_eq(s, "xsd") {
        '\u{e619}'
    } else if text_eq(s, "sql") {
        '\u{f1c0}'
    } else if text_eq(s, "db") || text_eq(s, "sqlite") || text_eq(s, "sqlite3") {
        '\u{f1c0}'
    } else if text_eq(s, "php") {
        '\u{e73d}'
    } else if text_eq(s, "cs") {
        '\u{f031}'
    } else if text_eq(s, "swift") {
        '\u{e755}'
    } else if text_eq(s, "dart") {
        '\u{e798}'
    } else if text_eq(s, "ex") || text_eq(s, "exs") {
        '\u{e62d}'
    } else if text_eq(s, "erl") || text_eq(s, "hrl") {
        '\u{e7b1}'
    } else if text_eq(s, "zig") {
        '\u{e6a9}'
    } else if text_eq(s, "nix") {
        '\u{f313}'
    } else if text_eq(s, "tf") || text_eq(s, "tfvars") {
        '\u{e69a}'
    } else if text_eq(s, "vimrc") {
        '\u{e62b}'
    } else {
        '\u{f15b}'
    }
}

/// Chooses the icon from the name and from the name and extension in lower case.
pub fn choose_icon(name: &str, is_dir: bool, lower_name: &str, lower_ext: &str) -> (c: char)
    ensures
        c == icon_from(name@, is_dir, lower_name@, lower_ext@),
{
    if is_dir {
        return find_directory_icon(name);
    }
    match find_whole_name_icon(lower_name) {
        Some(c) => c,
        None => find_extension_icon(lower_ext),
    }
}

/// The icon of a file or a directory.
pub fn file_icon(name: &str, is_dir: bool) -> (c: char)
    ensures
        c == icon(name@, is_dir),
{
    let ext = behind_last(name, '.');
    let lower_name = name.to_lowercase();
    let lower_ext = ext.as_str().to_lowercase();
    choose_icon(name, is_dir, lower_name.as_str(), lower_ext.as_str())
}

/// Of a file whose name is in no table of whole names, only what follows the last
/// full stop decides the icon.
pub proof fn only_the_extension_counts(x: Seq<char>, y: Seq<char>)
    requires
        whole_name_icon(lowercase(x)) is None,
        whole_name_icon(lowercase(y)) is None,
        after_last(x, '.') == after_last(y, '.'),
    ensures
        icon(x, false) == icon(y, false),
{
}

/// So two such names with the same extension have the same icon, whatever stands
/// before it.
pub proof fn same_extension_same_icon(a: Seq<char>, b: Seq<char>, ext: Seq<char>)
    requires
        lacks(ext, '.'),
        whole_name_icon(lowercase(a + seq!['.'] + ext)) is None,
        whole_name_icon(lowercase(b + seq!['.'] + ext)) is None,
    ensures
        icon(a + seq!['.'] + ext, false) == icon(b + seq!['.'] + ext, false),
{
    let x = a + seq!['.'] + ext;
    let y = b + seq!['.'] + ext;
    lemma_found_last(a, '.', ext);
    lemma_found_last(b, '.', ext);
    assert(x.skip(a.len() as int + 1) =~= ext);
    assert(y.skip(b.len() as int + 1) =~= ext);
    only_the_extension_counts(x, y);
}

/// The case of ASCII letters in a file's name does not matter to its icon.
pub proof fn case_does_not_matter_to_the_icon(x: Seq<char>, y: Seq<char>)
    requires
        same_but_for_case(x, y),
    ensures
        icon(x, false) == icon(y, false),
{
    lemma_same_extension_but_for_case(x, y);
    lemma_same_in_lower_case(x, y);
    lemma_same_in_lower_case(after_last(x, '.'), after_last(y, '.'));
}

/// Whether an extension, in lower case, is one with an icon of its own.
pub open spec fn is_known_extension(s: Seq<char>) -> bool {
    ||| s == "rs"@
    ||| s == "py"@
    ||| s == "pyw"@
    ||| s == "pyc"@
    ||| s == "pyi"@
    ||| s == "js"@
    ||| s == "mjs"@
    ||| s == "cjs"@
    ||| s == "ts"@
    ||| s == "mts"@
    ||| s == "cts"@
    ||| s == "jsx"@
    ||| s == "tsx"@
    ||| s == "html"@
    ||| s == "htm"@
    ||| s == "css"@
    ||| s == "scss"@
    ||| s == "sass"@
    ||| s == "less"@
    ||| s == "json"@
    ||| s == "jsonc"@
    ||| s == "json5"@
    ||| s == "yaml"@
    ||| s == "yml"@
    ||| s == "toml"@
    ||| s == "md"@
    ||| s == "markdown"@
    ||| s == "mdx"@
    ||| s == "pdf"@
    ||| s == "png"@
    ||| s == "jpg"@
    ||| s == "jpeg"@
    ||| s == "gif"@
    ||| s == "svg"@
    ||| s == "webp"@
    ||| s == "bmp"@
    ||| s == "ico"@
    ||| s == "tiff"@
    ||| s == "avif"@
    ||| s == "mp3"@
    ||| s == "flac"@
    ||| s == "wav"@
    ||| s == "ogg"@
    ||| s == "m4a"@
    ||| s == "aac"@
    ||| s == "opus"@
    ||| s == "mp4"@
    ||| s == "mkv"@
    ||| s == "avi"@
    ||| s == "mov"@
    ||| s == "webm"@
    ||| s == "flv"@
    ||| s == "wmv"@
    ||| s == "zip"@
    ||| s == "tar"@
    ||| s == "gz"@
    ||| s == "bz2"@
    ||| s == "xz"@
    ||| s == "7z"@
    ||| s == "rar"@
    ||| s == "zst"@
    ||| s == "lz4"@
    ||| s == "lzma"@
    ||| s == "sh"@
    ||| s == "bash"@
    ||| s == "zsh"@
    ||| s == "fish"@
    ||| s == "ksh"@
    ||| s == "c"@
    ||| s == "h"@
    ||| s == "cpp"@
    ||| s == "cc"@
    ||| s == "cxx"@
    ||| s == "hpp"@
    ||| s == "hxx"@
    ||| s == "go"@
    ||| s == "rb"@
    ||| s == "erb"@
    ||| s == "java"@
    ||| s == "class"@
    ||| s == "jar"@
    ||| s == "kt"@
    ||| s == "kts"@
    ||| s == "hs"@
    ||| s == "lhs"@
    ||| s == "lua"@
    ||| s == "vim"@
    ||| s == "vimrc"@
    ||| s == "conf"@
    ||| s == "config"@
    ||| s == "cfg"@
    ||| s == "ini"@
    ||| s == "nvim"@
    ||| s == "lock"@
    ||| s == "log"@
    ||| s == "txt"@
    ||| s == "xml"@
    ||| s == "xsl"@
    ||| s == "xsd"@
    ||| s == "sql"@
    ||| s == "db"@
    ||| s == "sqlite"@
    ||| s == "sqlite3"@
    ||| s == "php"@
    ||| s == "cs"@
    ||| s == "swift"@
    ||| s == "dart"@
    ||| s == "ex"@
    ||| s == "exs"@
    ||| s == "erl"@
    ||| s == "hrl"@
    ||| s == "zig"@
    ||| s == "nix"@
    ||| s == "tf"@
    ||| s == "tfvars"@
}

/// Every icon stands for its own extensions and for no others, and an extension with
/// an icon of its own has one: none of them has that of a plain file.
pub proof fn icons_stand_for_their_extensions(s: Seq<char>)
    ensures
        is_known_extension(s) <==> extension_icon(s) != '\u{f15b}',
        extension_icon(s) == '\u{e7a8}' ==> s == "rs"@,
        extension_icon(s) == '\u{e73c}' ==> s == "py"@ || s == "pyw"@ || s == "pyc"@ || s == "pyi"@,
        extension_icon(s) == '\u{e74e}' ==> s == "js"@ || s == "mjs"@ || s == "cjs"@,
        extension_icon(s) == '\u{e628}' ==> s == "ts"@ || s == "mts"@ || s == "cts"@,
        extension_icon(s) == '\u{e7ba}' ==> s == "jsx"@ || s == "tsx"@,
        extension_icon(s) == '\u{e736}' ==> s == "html"@ || s == "htm"@,
        extension_icon(s) == '\u{e749}' ==> s == "css"@ || s == "scss"@ || s == "sass"@ || s == "less"@,
        extension_icon(s) == '\u{e60b}' ==> s == "json"@ || s == "jsonc"@ || s == "json5"@,
        extension_icon(s) == '\u{e6d7}' ==> s == "yaml"@ || s == "yml"@ || s == "toml"@,
        extension_icon(s) == '\u{e73e}' ==> s == "md"@ || s == "markdown"@ || s == "mdx"@,
        extension_icon(s) == '\u{f1c1}' ==> s == "pdf"@,
        extension_icon(s) == '\u{f1c5}' ==> s == "png"@ || s == "jpg"@ || s == "jpeg"@ || s == "gif"@ || s == "svg"@ || s == "webp"@ || s == "bmp"@ || s == "ico"@ || s == "tiff"@ || s == "avif"@,
        extension_icon(s) == '\u{f001}' ==> s == "mp3"@ || s == "flac"@ || s == "wav"@ || s == "ogg"@ || s == "m4a"@ || s == "aac"@ || s == "opus"@,
        extension_icon(s) == '\u{f03d}' ==> s == "mp4"@ || s == "mkv"@ || s == "avi"@ || s == "mov"@ || s == "webm"@ || s == "flv"@ || s == "wmv"@,
        extension_icon(s) == '\u{f1c6}' ==> s == "zip"@ || s == "tar"@ || s == "gz"@ || s == "bz2"@ || s == "xz"@ || s == "7z"@ || s == "rar"@ || s == "zst"@ || s == "lz4"@ || s == "lzma"@,
        extension_icon(s) == '\u{f489}' ==> s == "sh"@ || s == "bash"@ || s == "zsh"@ || s == "fish"@ || s == "ksh"@,
        extension_icon(s) == '\u{e61e}' ==> s == "c"@ || s == "h"@,
        extension_icon(s) == '\u{e61d}' ==> s == "cpp"@ || s == "cc"@ || s == "cxx"@ || s == "hpp"@ || s == "hxx"@,
        extension_icon(s) == '\u{e626}' ==> s == "go"@,
        extension_icon(s) == '\u{e739}' ==> s == "rb"@ || s == "erb"@,
        extension_icon(s) == '\u{e738}' ==> s == "java"@ || s == "class"@ || s == "jar"@,
        extension_icon(s) == '\u{e634}' ==> s == "kt"@ || s == "kts"@,
        extension_icon(s) == '\u{e777}' ==> s == "hs"@ || s == "lhs"@,
        extension_icon(s) == '\u{e620}' ==> s == "lua"@,
        extension_icon(s) == '\u{e62b}' ==> s == "vim"@ || s == "vimrc"@,
        extension_icon(s) == '\u{e615}' ==> s == "conf"@ || s == "config"@ || s == "cfg"@ || s == "ini"@ || s == "nvim"@,
        extension_icon(s) == '\u{f023}' ==> s == "lock"@,
        extension_icon(s) == '\u{f18d}' ==> s == "log"@,
        extension_icon(s) == '\u{f15c}' ==> s == "txt"@,
        extension_icon(s) == '\u{e619}' ==> s == "xml"@ || s == "xsl"@ || s == "xsd"@,
        extension_icon(s) == '\u{f1c0}' ==> s == "sql"@ || s == "db"@ || s == "sqlite"@ || s == "sqlite3"@,
        extension_icon(s) == '\u{e73d}' ==> s == "php"@,
        extension_icon(s) == '\u{f031}' ==> s == "cs"@,
        extension_icon(s) == '\u{e755}' ==> s == "swift"@,
        extension_icon(s) == '\u{e798}' ==> s == "dart"@,
        extension_icon(s) == '\u{e62d}' ==> s == "ex"@ || s == "exs"@,
        extension_icon(s) == '\u{e7b1}' ==> s == "erl"@ || s == "hrl"@,
        extension_icon(s) == '\u{e6a9}' ==> s == "zig"@,
        extension_icon(s) == '\u{f313}' ==> s == "nix"@,
        extension_icon(s) == '\u{e69a}' ==> s == "tf"@ || s == "tfvars"@,
{
}

/// Every icon is one of the private use area, where the icons of the font are.
pub proof fn icons_are_of_the_font(name: Seq<char>, is_dir: bool)
    ensures
        0xe000 <= icon(name, is_dir) as int <= 0xf8ff,
{
}

/// A directory has the icon of a directory, whatever its name ends in, but for two
/// names; a file never has it.
pub proof fn directories_have_their_icon(name: Seq<char>)
    ensures
        icon(name, true) == '\u{f07b}' <==> name != ".git"@ && name != "node_modules"@,
        icon(name, false) != '\u{f07b}',
        icon(".git"@, true) == '\u{e702}',
        icon("node_modules"@, true) == '\u{e5fa}',
{
    reveal_strlit(".git");
    reveal_strlit("node_modules");
    assert(".git"@.len() == 4 && "node_modules"@.len() == 12);
}

/// A whole name with an icon of its own has that icon, whatever its extension; the
/// icons of whole names stand for their own names.
pub proof fn whole_name_decides_first(name: Seq<char>, c: char)
    ensures
        whole_name_icon(lowercase(name)) == Some(c) ==> icon(name, false) == c,
        whole_name_icon(name) == Some('\u{e779}') ==> name == "makefile"@ || name
            == "gnumakefile"@,
        whole_name_icon(name) == Some('\u{e7b0}') ==> name == "dockerfile"@,
        whole_name_icon(name) == Some('\u{e7a8}') ==> name == "cargo.toml"@ || name
            == "cargo.lock"@,
        whole_name_icon(name) == Some('\u{e702}') ==> name == ".gitignore"@ || name
            == ".gitconfig"@ || name == ".gitmodules"@ || name == ".gitattributes"@,
        whole_name_icon(name) == Some('\u{f462}') ==> name == ".env"@ || name == ".envrc"@,
        whole_name_icon(name) is Some <==> name == "makefile"@ || name == "gnumakefile"@ || name
            == "dockerfile"@ || name == "cargo.toml"@ || name == "cargo.lock"@ || name
            == ".gitignore"@ || name == ".gitconfig"@ || name == ".gitmodules"@ || name
            == ".gitattributes"@ || name == ".env"@ || name == ".envrc"@,
{
}

/// A name that is in no table of whole names has the icon of its extension in lower
/// case.
pub proof fn extension_decides(stem: Seq<char>, ext: Seq<char>)
    requires
        lacks(ext, '.'),
        whole_name_icon(lowercase(stem + seq!['.'] + ext)) is None,
    ensures
        icon(stem + seq!['.'] + ext, false) == extension_icon(lowercase(ext)),
{
    crate::scan::text_is_cut_at_a_character(stem, '.', ext);
}

} // verus!
