//! Which files are indexed, by the tables of what is not, and what a resource
//! goes through.

use crate::chunker::{
    file_chunks, grammar_for, names_binary_format, split_code, syntax_end_rows, text_chunks,
    ChunkingConfig, Grammar,
};
use crate::db::{IndexingStatus, ResourceView};
use crate::resource::{
    failure_note, hash_of, indexable, indexed_with, indexing_from, last_dot,
    names_lockfile, path_of, successes, IndexOutcome,
};
use crate::text::{lines_of, lowered, number_of, numeral};
use crate::text_laws::{law_numerals_are_read_back, law_numerals_stand_for_their_number, positional};
use std::collections::hash_map::DefaultHasher;
use vstd::prelude::*;
use vstd::std_specs::hash::DefaultHasherAdditionalSpecFns;
use vstd::utf8::encode_utf8;

verus! {

/// The extensions of binary formats, in lower case: images, audio and video,
/// documents, archives, compiled artifacts, fonts and other data.
pub open spec fn binary_formats() -> Seq<Seq<char>> {
    seq![
        "png"@,
        "jpg"@,
        "jpeg"@,
        "gif"@,
        "bmp"@,
        "ico"@,
        "webp"@,
        "tiff"@,
        "exr"@,
        "hdr"@,
        "svg"@,
        "psd"@,
        "ai"@,
        "eps"@,
        "mp3"@,
        "wav"@,
        "mp4"@,
        "avi"@,
        "mov"@,
        "webm"@,
        "flac"@,
        "ogg"@,
        "m4a"@,
        "aac"@,
        "wma"@,
        "flv"@,
        "mkv"@,
        "wmv"@,
        "pdf"@,
        "doc"@,
        "docx"@,
        "xls"@,
        "xlsx"@,
        "ppt"@,
        "pptx"@,
        "odt"@,
        "zip"@,
        "tar"@,
        "gz"@,
        "7z"@,
        "rar"@,
        "iso"@,
        "dmg"@,
        "pkg"@,
        "deb"@,
        "rpm"@,
        "msi"@,
        "apk"@,
        "xz"@,
        "bz2"@,
        "exe"@,
        "dll"@,
        "so"@,
        "dylib"@,
        "class"@,
        "pyc"@,
        "o"@,
        "obj"@,
        "lib"@,
        "a"@,
        "out"@,
        "app"@,
        "jar"@,
        "ttf"@,
        "otf"@,
        "woff"@,
        "woff2"@,
        "eot"@,
        "bin"@,
        "dat"@,
        "db"@,
        "sqlite"@,
    ]
}

/// The names of dependency managers' lockfiles.
pub open spec fn lockfiles() -> Seq<Seq<char>> {
    seq![
        "Cargo.lock"@,
        "package-lock.json"@,
        "npm-shrinkwrap.json"@,
        "yarn.lock"@,
        "pnpm-lock.yaml"@,
        "bun.lock"@,
        "bun.lockb"@,
        "deno.lock"@,
        "poetry.lock"@,
        "Pipfile.lock"@,
        "pdm.lock"@,
        "uv.lock"@,
        "Gemfile.lock"@,
        "composer.lock"@,
        "go.sum"@,
        "mix.lock"@,
        "pubspec.lock"@,
        "Podfile.lock"@,
        "gradle.lockfile"@,
        "packages.lock.json"@,
        "flake.lock"@,
    ]
}

/// The extensions of code, each with its language.
pub open spec fn code_extensions() -> Seq<(Seq<char>, Grammar)> {
    seq![
        ("rs"@, Grammar::Rust),
        ("py"@, Grammar::Python),
        ("js"@, Grammar::JavaScript),
        ("jsx"@, Grammar::JavaScript),
        ("mjs"@, Grammar::JavaScript),
        ("cjs"@, Grammar::JavaScript),
        ("ts"@, Grammar::TypeScript),
        ("tsx"@, Grammar::Tsx),
        ("go"@, Grammar::Go),
    ]
}

/// An extension names a binary format exactly if its lower-case form is in the
/// table of binary formats.
pub proof fn law_binary_formats_are_those_listed(extension: Seq<char>)
    ensures
        names_binary_format(lowered(extension)) <==> binary_formats().contains(
            lowered(extension),
        ),
{
    let table = binary_formats();
    assert(table[0] == "png"@);
    assert(table[1] == "jpg"@);
    assert(table[2] == "jpeg"@);
    assert(table[3] == "gif"@);
    assert(table[4] == "bmp"@);
    assert(table[5] == "ico"@);
    assert(table[6] == "webp"@);
    assert(table[7] == "tiff"@);
    assert(table[8] == "exr"@);
    assert(table[9] == "hdr"@);
    assert(table[10] == "svg"@);
    assert(table[11] == "psd"@);
    assert(table[12] == "ai"@);
    assert(table[13] == "eps"@);
    assert(table[14] == "mp3"@);
    assert(table[15] == "wav"@);
    assert(table[16] == "mp4"@);
    assert(table[17] == "avi"@);
    assert(table[18] == "mov"@);
    assert(table[19] == "webm"@);
    assert(table[20] == "flac"@);
    assert(table[21] == "ogg"@);
    assert(table[22] == "m4a"@);
    assert(table[23] == "aac"@);
    assert(table[24] == "wma"@);
    assert(table[25] == "flv"@);
    assert(table[26] == "mkv"@);
    assert(table[27] == "wmv"@);
    assert(table[28] == "pdf"@);
    assert(table[29] == "doc"@);
    assert(table[30] == "docx"@);
    assert(table[31] == "xls"@);
    assert(table[32] == "xlsx"@);
    assert(table[33] == "ppt"@);
    assert(table[34] == "pptx"@);
    assert(table[35] == "odt"@);
    assert(table[36] == "zip"@);
    assert(table[37] == "tar"@);
    assert(table[38] == "gz"@);
    assert(table[39] == "7z"@);
    assert(table[40] == "rar"@);
    assert(table[41] == "iso"@);
    assert(table[42] == "dmg"@);
    assert(table[43] == "pkg"@);
    assert(table[44] == "deb"@);
    assert(table[45] == "rpm"@);
    assert(table[46] == "msi"@);
    assert(table[47] == "apk"@);
    assert(table[48] == "xz"@);
    assert(table[49] == "bz2"@);
    assert(table[50] == "exe"@);
    assert(table[51] == "dll"@);
    assert(table[52] == "so"@);
    assert(table[53] == "dylib"@);
    assert(table[54] == "class"@);
    assert(table[55] == "pyc"@);
    assert(table[56] == "o"@);
    assert(table[57] == "obj"@);
    assert(table[58] == "lib"@);
    assert(table[59] == "a"@);
    assert(table[60] == "out"@);
    assert(table[61] == "app"@);
    assert(table[62] == "jar"@);
    assert(table[63] == "ttf"@);
    assert(table[64] == "otf"@);
    assert(table[65] == "woff"@);
    assert(table[66] == "woff2"@);
    assert(table[67] == "eot"@);
    assert(table[68] == "bin"@);
    assert(table[69] == "dat"@);
    assert(table[70] == "db"@);
    assert(table[71] == "sqlite"@);
}

/// A file name is a lockfile's exactly if it is in the table of lockfiles.
pub proof fn law_lockfiles_are_those_listed(name: Seq<char>)
    ensures
        names_lockfile(name) <==> lockfiles().contains(name),
{
    let table = lockfiles();
    assert(table[0] == "Cargo.lock"@);
    assert(table[1] == "package-lock.json"@);
    assert(table[2] == "npm-shrinkwrap.json"@);
    assert(table[3] == "yarn.lock"@);
    assert(table[4] == "pnpm-lock.yaml"@);
    assert(table[5] == "bun.lock"@);
    assert(table[6] == "bun.lockb"@);
    assert(table[7] == "deno.lock"@);
    assert(table[8] == "poetry.lock"@);
    assert(table[9] == "Pipfile.lock"@);
    assert(table[10] == "pdm.lock"@);
    assert(table[11] == "uv.lock"@);
    assert(table[12] == "Gemfile.lock"@);
    assert(table[13] == "composer.lock"@);
    assert(table[14] == "go.sum"@);
    assert(table[15] == "mix.lock"@);
    assert(table[16] == "pubspec.lock"@);
    assert(table[17] == "Podfile.lock"@);
    assert(table[18] == "gradle.lockfile"@);
    assert(table[19] == "packages.lock.json"@);
    assert(table[20] == "flake.lock"@);
}

/// The letters of the extensions of code.
proof fn lemma_code_letters()
    ensures
        "rs"@ == seq!['r', 's'],
        "py"@ == seq!['p', 'y'],
        "js"@ == seq!['j', 's'],
        "jsx"@ == seq!['j', 's', 'x'],
        "mjs"@ == seq!['m', 'j', 's'],
        "cjs"@ == seq!['c', 'j', 's'],
        "ts"@ == seq!['t', 's'],
        "tsx"@ == seq!['t', 's', 'x'],
        "go"@ == seq!['g', 'o'],
{
    reveal_strlit("rs");
    reveal_strlit("py");
    reveal_strlit("js");
    reveal_strlit("jsx");
    reveal_strlit("mjs");
    reveal_strlit("cjs");
    reveal_strlit("ts");
    reveal_strlit("tsx");
    reveal_strlit("go");
    assert("rs"@ =~= seq!['r', 's']);
    assert("py"@ =~= seq!['p', 'y']);
    assert("js"@ =~= seq!['j', 's']);
    assert("jsx"@ =~= seq!['j', 's', 'x']);
    assert("mjs"@ =~= seq!['m', 'j', 's']);
    assert("cjs"@ =~= seq!['c', 'j', 's']);
    assert("ts"@ =~= seq!['t', 's']);
    assert("tsx"@ =~= seq!['t', 's', 'x']);
    assert("go"@ =~= seq!['g', 'o']);
}

/// An extension has a grammar exactly if it is in the table of code, and then
/// the one of its language.
pub proof fn law_grammars_are_those_listed(extension: Seq<char>, grammar: Grammar)
    ensures
        grammar_for(extension) == Some(grammar) <==> code_extensions().contains(
            (extension, grammar),
        ),
{
    let table = code_extensions();
    lemma_code_letters();
    assert(seq!['r', 's'][0] == 'r' && seq!['r', 's'][1] == 's');
    assert(seq!['p', 'y'][0] == 'p' && seq!['p', 'y'][1] == 'y');
    assert(seq!['j', 's'][0] == 'j' && seq!['j', 's'][1] == 's');
    assert(seq!['j', 's', 'x'][0] == 'j' && seq!['j', 's', 'x'][1] == 's'
        && seq!['j', 's', 'x'][2] == 'x');
    assert(seq!['m', 'j', 's'][0] == 'm' && seq!['m', 'j', 's'][1] == 'j'
        && seq!['m', 'j', 's'][2] == 's');
    assert(seq!['c', 'j', 's'][0] == 'c' && seq!['c', 'j', 's'][1] == 'j'
        && seq!['c', 'j', 's'][2] == 's');
    assert(seq!['t', 's'][0] == 't' && seq!['t', 's'][1] == 's');
    assert(seq!['t', 's', 'x'][0] == 't' && seq!['t', 's', 'x'][1] == 's'
        && seq!['t', 's', 'x'][2] == 'x');
    assert(seq!['g', 'o'][0] == 'g' && seq!['g', 'o'][1] == 'o');
    assert(table[0] == ("rs"@, Grammar::Rust));
    assert(table[1] == ("py"@, Grammar::Python));
    assert(table[2] == ("js"@, Grammar::JavaScript));
    assert(table[3] == ("jsx"@, Grammar::JavaScript));
    assert(table[4] == ("mjs"@, Grammar::JavaScript));
    assert(table[5] == ("cjs"@, Grammar::JavaScript));
    assert(table[6] == ("ts"@, Grammar::TypeScript));
    assert(table[7] == ("tsx"@, Grammar::Tsx));
    assert(table[8] == ("go"@, Grammar::Go));
    if table.contains((extension, grammar)) {
        let i = choose|i: int| 0 <= i < table.len() && table[i] == (extension, grammar);
        assert(table[i].0 == extension && table[i].1 == grammar);
    }
}

/// What tells a binary format from code: its length, or a letter.
proof fn lemma_binary_letters()
    ensures
        "jpeg"@.len() == 4,
        "webp"@.len() == 4,
        "tiff"@.len() == 4,
        "webm"@.len() == 4,
        "flac"@.len() == 4,
        "docx"@.len() == 4,
        "xlsx"@.len() == 4,
        "pptx"@.len() == 4,
        "dylib"@.len() == 5,
        "class"@.len() == 5,
        "o"@.len() == 1,
        "a"@.len() == 1,
        "woff"@.len() == 4,
        "woff2"@.len() == 5,
        "sqlite"@.len() == 6,
        "png"@ == seq!['p', 'n', 'g'],
        "jpg"@ == seq!['j', 'p', 'g'],
        "gif"@ == seq!['g', 'i', 'f'],
        "bmp"@ == seq!['b', 'm', 'p'],
        "ico"@ == seq!['i', 'c', 'o'],
        "exr"@ == seq!['e', 'x', 'r'],
        "hdr"@ == seq!['h', 'd', 'r'],
        "svg"@ == seq!['s', 'v', 'g'],
        "psd"@ == seq!['p', 's', 'd'],
        "ai"@ == seq!['a', 'i'],
        "eps"@ == seq!['e', 'p', 's'],
        "mp3"@ == seq!['m', 'p', '3'],
        "wav"@ == seq!['w', 'a', 'v'],
        "mp4"@ == seq!['m', 'p', '4'],
        "avi"@ == seq!['a', 'v', 'i'],
        "mov"@ == seq!['m', 'o', 'v'],
        "ogg"@ == seq!['o', 'g', 'g'],
        "m4a"@ == seq!['m', '4', 'a'],
        "aac"@ == seq!['a', 'a', 'c'],
        "wma"@ == seq!['w', 'm', 'a'],
        "flv"@ == seq!['f', 'l', 'v'],
        "mkv"@ == seq!['m', 'k', 'v'],
        "wmv"@ == seq!['w', 'm', 'v'],
        "pdf"@ == seq!['p', 'd', 'f'],
        "doc"@ == seq!['d', 'o', 'c'],
        "xls"@ == seq!['x', 'l', 's'],
        "ppt"@ == seq!['p', 'p', 't'],
        "odt"@ == seq!['o', 'd', 't'],
        "zip"@ == seq!['z', 'i', 'p'],
        "tar"@ == seq!['t', 'a', 'r'],
        "gz"@ == seq!['g', 'z'],
        "7z"@ == seq!['7', 'z'],
        "rar"@ == seq!['r', 'a', 'r'],
        "iso"@ == seq!['i', 's', 'o'],
        "dmg"@ == seq!['d', 'm', 'g'],
        "pkg"@ == seq!['p', 'k', 'g'],
        "deb"@ == seq!['d', 'e', 'b'],
        "rpm"@ == seq!['r', 'p', 'm'],
        "msi"@ == seq!['m', 's', 'i'],
        "apk"@ == seq!['a', 'p', 'k'],
        "xz"@ == seq!['x', 'z'],
        "bz2"@ == seq!['b', 'z', '2'],
        "exe"@ == seq!['e', 'x', 'e'],
        "dll"@ == seq!['d', 'l', 'l'],
        "so"@ == seq!['s', 'o'],
        "pyc"@ == seq!['p', 'y', 'c'],
        "obj"@ == seq!['o', 'b', 'j'],
        "lib"@ == seq!['l', 'i', 'b'],
        "out"@ == seq!['o', 'u', 't'],
        "app"@ == seq!['a', 'p', 'p'],
        "jar"@ == seq!['j', 'a', 'r'],
        "ttf"@ == seq!['t', 't', 'f'],
        "otf"@ == seq!['o', 't', 'f'],
        "eot"@ == seq!['e', 'o', 't'],
        "bin"@ == seq!['b', 'i', 'n'],
        "dat"@ == seq!['d', 'a', 't'],
        "db"@ == seq!['d', 'b'],
{
    reveal_strlit("png");
    reveal_strlit("jpg");
    reveal_strlit("jpeg");
    reveal_strlit("gif");
    reveal_strlit("bmp");
    reveal_strlit("ico");
    reveal_strlit("webp");
    reveal_strlit("tiff");
    reveal_strlit("exr");
    reveal_strlit("hdr");
    reveal_strlit("svg");
    reveal_strlit("psd");
    reveal_strlit("ai");
    reveal_strlit("eps");
    reveal_strlit("mp3");
    reveal_strlit("wav");
    reveal_strlit("mp4");
    reveal_strlit("avi");
    reveal_strlit("mov");
    reveal_strlit("webm");
    reveal_strlit("flac");
    reveal_strlit("ogg");
    reveal_strlit("m4a");
    reveal_strlit("aac");
    reveal_strlit("wma");
    reveal_strlit("flv");
    reveal_strlit("mkv");
    reveal_strlit("wmv");
    reveal_strlit("pdf");
    reveal_strlit("doc");
    reveal_strlit("docx");
    reveal_strlit("xls");
    reveal_strlit("xlsx");
    reveal_strlit("ppt");
    reveal_strlit("pptx");
    reveal_strlit("odt");
    reveal_strlit("zip");
    reveal_strlit("tar");
    reveal_strlit("gz");
    reveal_strlit("7z");
    reveal_strlit("rar");
    reveal_strlit("iso");
    reveal_strlit("dmg");
    reveal_strlit("pkg");
    reveal_strlit("deb");
    reveal_strlit("rpm");
    reveal_strlit("msi");
    reveal_strlit("apk");
    reveal_strlit("xz");
    reveal_strlit("bz2");
    reveal_strlit("exe");
    reveal_strlit("dll");
    reveal_strlit("so");
    reveal_strlit("dylib");
    reveal_strlit("class");
    reveal_strlit("pyc");
    reveal_strlit("o");
    reveal_strlit("obj");
    reveal_strlit("lib");
    reveal_strlit("a");
    reveal_strlit("out");
    reveal_strlit("app");
    reveal_strlit("jar");
    reveal_strlit("ttf");
    reveal_strlit("otf");
    reveal_strlit("woff");
    reveal_strlit("woff2");
    reveal_strlit("eot");
    reveal_strlit("bin");
    reveal_strlit("dat");
    reveal_strlit("db");
    reveal_strlit("sqlite");
    assert("png"@ =~= seq!['p', 'n', 'g']);
    assert("jpg"@ =~= seq!['j', 'p', 'g']);
    assert("gif"@ =~= seq!['g', 'i', 'f']);
    assert("bmp"@ =~= seq!['b', 'm', 'p']);
    assert("ico"@ =~= seq!['i', 'c', 'o']);
    assert("exr"@ =~= seq!['e', 'x', 'r']);
    assert("hdr"@ =~= seq!['h', 'd', 'r']);
    assert("svg"@ =~= seq!['s', 'v', 'g']);
    assert("psd"@ =~= seq!['p', 's', 'd']);
    assert("ai"@ =~= seq!['a', 'i']);
    assert("eps"@ =~= seq!['e', 'p', 's']);
    assert("mp3"@ =~= seq!['m', 'p', '3']);
    assert("wav"@ =~= seq!['w', 'a', 'v']);
    assert("mp4"@ =~= seq!['m', 'p', '4']);
    assert("avi"@ =~= seq!['a', 'v', 'i']);
    assert("mov"@ =~= seq!['m', 'o', 'v']);
    assert("ogg"@ =~= seq!['o', 'g', 'g']);
    assert("m4a"@ =~= seq!['m', '4', 'a']);
    assert("aac"@ =~= seq!['a', 'a', 'c']);
    assert("wma"@ =~= seq!['w', 'm', 'a']);
    assert("flv"@ =~= seq!['f', 'l', 'v']);
    assert("mkv"@ =~= seq!['m', 'k', 'v']);
    assert("wmv"@ =~= seq!['w', 'm', 'v']);
    assert("pdf"@ =~= seq!['p', 'd', 'f']);
    assert("doc"@ =~= seq!['d', 'o', 'c']);
    assert("xls"@ =~= seq!['x', 'l', 's']);
    assert("ppt"@ =~= seq!['p', 'p', 't']);
    assert("odt"@ =~= seq!['o', 'd', 't']);
    assert("zip"@ =~= seq!['z', 'i', 'p']);
    assert("tar"@ =~= seq!['t', 'a', 'r']);
    assert("gz"@ =~= seq!['g', 'z']);
    assert("7z"@ =~= seq!['7', 'z']);
    assert("rar"@ =~= seq!['r', 'a', 'r']);
    assert("iso"@ =~= seq!['i', 's', 'o']);
    assert("dmg"@ =~= seq!['d', 'm', 'g']);
    assert("pkg"@ =~= seq!['p', 'k', 'g']);
    assert("deb"@ =~= seq!['d', 'e', 'b']);
    assert("rpm"@ =~= seq!['r', 'p', 'm']);
    assert("msi"@ =~= seq!['m', 's', 'i']);
    assert("apk"@ =~= seq!['a', 'p', 'k']);
    assert("xz"@ =~= seq!['x', 'z']);
    assert("bz2"@ =~= seq!['b', 'z', '2']);
    assert("exe"@ =~= seq!['e', 'x', 'e']);
    assert("dll"@ =~= seq!['d', 'l', 'l']);
    assert("so"@ =~= seq!['s', 'o']);
    assert("pyc"@ =~= seq!['p', 'y', 'c']);
    assert("obj"@ =~= seq!['o', 'b', 'j']);
    assert("lib"@ =~= seq!['l', 'i', 'b']);
    assert("out"@ =~= seq!['o', 'u', 't']);
    assert("app"@ =~= seq!['a', 'p', 'p']);
    assert("jar"@ =~= seq!['j', 'a', 'r']);
    assert("ttf"@ =~= seq!['t', 't', 'f']);
    assert("otf"@ =~= seq!['o', 't', 'f']);
    assert("eot"@ =~= seq!['e', 'o', 't']);
    assert("bin"@ =~= seq!['b', 'i', 'n']);
    assert("dat"@ =~= seq!['d', 'a', 't']);
    assert("db"@ =~= seq!['d', 'b']);
}

/// No extension of code names a binary format.
pub proof fn law_code_is_not_binary(extension: Seq<char>)
    requires
        grammar_for(extension) is Some,
    ensures
        !names_binary_format(lowered(extension)),
{
    lemma_code_letters();
    lemma_binary_letters();
    let s = extension;
    let t = lowered(s);
    assert(2 <= s.len() <= 3);
    assert(s[0] == 'r' || s[0] == 'p' || s[0] == 'j' || s[0] == 'm' || s[0] == 'c' || s[0] == 't'
        || s[0] == 'g');
    assert(t =~= s);
    assert(t != "png"@) by {
        assert(seq!['p', 'n', 'g'][0] == 'p' && seq!['p', 'n', 'g'][1] == 'n'
            && seq!['p', 'n', 'g'][2] == 'g');
    }
    assert(t != "jpg"@) by {
        assert(seq!['j', 'p', 'g'][0] == 'j' && seq!['j', 'p', 'g'][1] == 'p'
            && seq!['j', 'p', 'g'][2] == 'g');
    }
    assert(t != "gif"@) by {
        assert(seq!['g', 'i', 'f'][0] == 'g' && seq!['g', 'i', 'f'][1] == 'i'
            && seq!['g', 'i', 'f'][2] == 'f');
    }
    assert(t != "bmp"@) by {
        assert(seq!['b', 'm', 'p'][0] == 'b' && seq!['b', 'm', 'p'][1] == 'm'
            && seq!['b', 'm', 'p'][2] == 'p');
    }
    assert(t != "ico"@) by {
        assert(seq!['i', 'c', 'o'][0] == 'i' && seq!['i', 'c', 'o'][1] == 'c'
            && seq!['i', 'c', 'o'][2] == 'o');
    }
    assert(t != "exr"@) by {
        assert(seq!['e', 'x', 'r'][0] == 'e' && seq!['e', 'x', 'r'][1] == 'x'
            && seq!['e', 'x', 'r'][2] == 'r');
    }
    assert(t != "hdr"@) by {
        assert(seq!['h', 'd', 'r'][0] == 'h' && seq!['h', 'd', 'r'][1] == 'd'
            && seq!['h', 'd', 'r'][2] == 'r');
    }
    assert(t != "svg"@) by {
        assert(seq!['s', 'v', 'g'][0] == 's' && seq!['s', 'v', 'g'][1] == 'v'
            && seq!['s', 'v', 'g'][2] == 'g');
    }
    assert(t != "psd"@) by {
        assert(seq!['p', 's', 'd'][0] == 'p' && seq!['p', 's', 'd'][1] == 's'
            && seq!['p', 's', 'd'][2] == 'd');
    }
    assert(t != "ai"@) by {
        assert(seq!['a', 'i'][0] == 'a' && seq!['a', 'i'][1] == 'i');
    }
    assert(t != "eps"@) by {
        assert(seq!['e', 'p', 's'][0] == 'e' && seq!['e', 'p', 's'][1] == 'p'
            && seq!['e', 'p', 's'][2] == 's');
    }
    assert(t != "mp3"@) by {
        assert(seq!['m', 'p', '3'][0] == 'm' && seq!['m', 'p', '3'][1] == 'p'
            && seq!['m', 'p', '3'][2] == '3');
    }
    assert(t != "wav"@) by {
        assert(seq!['w', 'a', 'v'][0] == 'w' && seq!['w', 'a', 'v'][1] == 'a'
            && seq!['w', 'a', 'v'][2] == 'v');
    }
    assert(t != "mp4"@) by {
        assert(seq!['m', 'p', '4'][0] == 'm' && seq!['m', 'p', '4'][1] == 'p'
            && seq!['m', 'p', '4'][2] == '4');
    }
    assert(t != "avi"@) by {
        assert(seq!['a', 'v', 'i'][0] == 'a' && seq!['a', 'v', 'i'][1] == 'v'
            && seq!['a', 'v', 'i'][2] == 'i');
    }
    assert(t != "mov"@) by {
        assert(seq!['m', 'o', 'v'][0] == 'm' && seq!['m', 'o', 'v'][1] == 'o'
            && seq!['m', 'o', 'v'][2] == 'v');
    }
    assert(t != "ogg"@) by {
        assert(seq!['o', 'g', 'g'][0] == 'o' && seq!['o', 'g', 'g'][1] == 'g'
            && seq!['o', 'g', 'g'][2] == 'g');
    }
    assert(t != "m4a"@) by {
        assert(seq!['m', '4', 'a'][0] == 'm' && seq!['m', '4', 'a'][1] == '4'
            && seq!['m', '4', 'a'][2] == 'a');
    }
    assert(t != "aac"@) by {
        assert(seq!['a', 'a', 'c'][0] == 'a' && seq!['a', 'a', 'c'][1] == 'a'
            && seq!['a', 'a', 'c'][2] == 'c');
    }
    assert(t != "wma"@) by {
        assert(seq!['w', 'm', 'a'][0] == 'w' && seq!['w', 'm', 'a'][1] == 'm'
            && seq!['w', 'm', 'a'][2] == 'a');
    }
    assert(t != "flv"@) by {
        assert(seq!['f', 'l', 'v'][0] == 'f' && seq!['f', 'l', 'v'][1] == 'l'
            && seq!['f', 'l', 'v'][2] == 'v');
    }
    assert(t != "mkv"@) by {
        assert(seq!['m', 'k', 'v'][0] == 'm' && seq!['m', 'k', 'v'][1] == 'k'
            && seq!['m', 'k', 'v'][2] == 'v');
    }
    assert(t != "wmv"@) by {
        assert(seq!['w', 'm', 'v'][0] == 'w' && seq!['w', 'm', 'v'][1] == 'm'
            && seq!['w', 'm', 'v'][2] == 'v');
    }
    assert(t != "pdf"@) by {
        assert(seq!['p', 'd', 'f'][0] == 'p' && seq!['p', 'd', 'f'][1] == 'd'
            && seq!['p', 'd', 'f'][2] == 'f');
    }
    assert(t != "doc"@) by {
        assert(seq!['d', 'o', 'c'][0] == 'd' && seq!['d', 'o', 'c'][1] == 'o'
            && seq!['d', 'o', 'c'][2] == 'c');
    }
    assert(t != "xls"@) by {
        assert(seq!['x', 'l', 's'][0] == 'x' && seq!['x', 'l', 's'][1] == 'l'
            && seq!['x', 'l', 's'][2] == 's');
    }
    assert(t != "ppt"@) by {
        assert(seq!['p', 'p', 't'][0] == 'p' && seq!['p', 'p', 't'][1] == 'p'
            && seq!['p', 'p', 't'][2] == 't');
    }
    assert(t != "odt"@) by {
        assert(seq!['o', 'd', 't'][0] == 'o' && seq!['o', 'd', 't'][1] == 'd'
            && seq!['o', 'd', 't'][2] == 't');
    }
    assert(t != "zip"@) by {
        assert(seq!['z', 'i', 'p'][0] == 'z' && seq!['z', 'i', 'p'][1] == 'i'
            && seq!['z', 'i', 'p'][2] == 'p');
    }
    assert(t != "tar"@) by {
        assert(seq!['t', 'a', 'r'][0] == 't' && seq!['t', 'a', 'r'][1] == 'a'
            && seq!['t', 'a', 'r'][2] == 'r');
    }
    assert(t != "gz"@) by {
        assert(seq!['g', 'z'][0] == 'g' && seq!['g', 'z'][1] == 'z');
    }
    assert(t != "7z"@) by {
        assert(seq!['7', 'z'][0] == '7' && seq!['7', 'z'][1] == 'z');
    }
    assert(t != "rar"@) by {
        assert(seq!['r', 'a', 'r'][0] == 'r' && seq!['r', 'a', 'r'][1] == 'a'
            && seq!['r', 'a', 'r'][2] == 'r');
    }
    assert(t != "iso"@) by {
        assert(seq!['i', 's', 'o'][0] == 'i' && seq!['i', 's', 'o'][1] == 's'
            && seq!['i', 's', 'o'][2] == 'o');
    }
    assert(t != "dmg"@) by {
        assert(seq!['d', 'm', 'g'][0] == 'd' && seq!['d', 'm', 'g'][1] == 'm'
            && seq!['d', 'm', 'g'][2] == 'g');
    }
    assert(t != "pkg"@) by {
        assert(seq!['p', 'k', 'g'][0] == 'p' && seq!['p', 'k', 'g'][1] == 'k'
            && seq!['p', 'k', 'g'][2] == 'g');
    }
    assert(t != "deb"@) by {
        assert(seq!['d', 'e', 'b'][0] == 'd' && seq!['d', 'e', 'b'][1] == 'e'
            && seq!['d', 'e', 'b'][2] == 'b');
    }
    assert(t != "rpm"@) by {
        assert(seq!['r', 'p', 'm'][0] == 'r' && seq!['r', 'p', 'm'][1] == 'p'
            && seq!['r', 'p', 'm'][2] == 'm');
    }
    assert(t != "msi"@) by {
        assert(seq!['m', 's', 'i'][0] == 'm' && seq!['m', 's', 'i'][1] == 's'
            && seq!['m', 's', 'i'][2] == 'i');
    }
    assert(t != "apk"@) by {
        assert(seq!['a', 'p', 'k'][0] == 'a' && seq!['a', 'p', 'k'][1] == 'p'
            && seq!['a', 'p', 'k'][2] == 'k');
    }
    assert(t != "xz"@) by {
        assert(seq!['x', 'z'][0] == 'x' && seq!['x', 'z'][1] == 'z');
    }
    assert(t != "bz2"@) by {
        assert(seq!['b', 'z', '2'][0] == 'b' && seq!['b', 'z', '2'][1] == 'z'
            && seq!['b', 'z', '2'][2] == '2');
    }
    assert(t != "exe"@) by {
        assert(seq!['e', 'x', 'e'][0] == 'e' && seq!['e', 'x', 'e'][1] == 'x'
            && seq!['e', 'x', 'e'][2] == 'e');
    }
    assert(t != "dll"@) by {
        assert(seq!['d', 'l', 'l'][0] == 'd' && seq!['d', 'l', 'l'][1] == 'l'
            && seq!['d', 'l', 'l'][2] == 'l');
    }
    assert(t != "so"@) by {
        assert(seq!['s', 'o'][0] == 's' && seq!['s', 'o'][1] == 'o');
    }
    assert(t != "pyc"@) by {
        assert(seq!['p', 'y', 'c'][0] == 'p' && seq!['p', 'y', 'c'][1] == 'y'
            && seq!['p', 'y', 'c'][2] == 'c');
    }
    assert(t != "obj"@) by {
        assert(seq!['o', 'b', 'j'][0] == 'o' && seq!['o', 'b', 'j'][1] == 'b'
            && seq!['o', 'b', 'j'][2] == 'j');
    }
    assert(t != "lib"@) by {
        assert(seq!['l', 'i', 'b'][0] == 'l' && seq!['l', 'i', 'b'][1] == 'i'
            && seq!['l', 'i', 'b'][2] == 'b');
    }
    assert(t != "out"@) by {
        assert(seq!['o', 'u', 't'][0] == 'o' && seq!['o', 'u', 't'][1] == 'u'
            && seq!['o', 'u', 't'][2] == 't');
    }
    assert(t != "app"@) by {
        assert(seq!['a', 'p', 'p'][0] == 'a' && seq!['a', 'p', 'p'][1] == 'p'
            && seq!['a', 'p', 'p'][2] == 'p');
    }
    assert(t != "jar"@) by {
        assert(seq!['j', 'a', 'r'][0] == 'j' && seq!['j', 'a', 'r'][1] == 'a'
            && seq!['j', 'a', 'r'][2] == 'r');
    }
    assert(t != "ttf"@) by {
        assert(seq!['t', 't', 'f'][0] == 't' && seq!['t', 't', 'f'][1] == 't'
            && seq!['t', 't', 'f'][2] == 'f');
    }
    assert(t != "otf"@) by {
        assert(seq!['o', 't', 'f'][0] == 'o' && seq!['o', 't', 'f'][1] == 't'
            && seq!['o', 't', 'f'][2] == 'f');
    }
    assert(t != "eot"@) by {
        assert(seq!['e', 'o', 't'][0] == 'e' && seq!['e', 'o', 't'][1] == 'o'
            && seq!['e', 'o', 't'][2] == 't');
    }
    assert(t != "bin"@) by {
        assert(seq!['b', 'i', 'n'][0] == 'b' && seq!['b', 'i', 'n'][1] == 'i'
            && seq!['b', 'i', 'n'][2] == 'n');
    }
    assert(t != "dat"@) by {
        assert(seq!['d', 'a', 't'][0] == 'd' && seq!['d', 'a', 't'][1] == 'a'
            && seq!['d', 'a', 't'][2] == 't');
    }
    assert(t != "db"@) by {
        assert(seq!['d', 'b'][0] == 'd' && seq!['d', 'b'][1] == 'b');
    }
}

proof fn lemma_last_dot(stem: Seq<char>, extension: Seq<char>)
    requires
        !extension.contains('.'),
    ensures
        last_dot(stem + seq!['.'] + extension) == stem.len(),
    decreases extension.len(),
{
    let name = stem + seq!['.'] + extension;
    if extension.len() > 0 {
        let front = extension.drop_last();
        assert(extension.contains(extension.last()));
        assert forall|c: char| front.contains(c) implies extension.contains(c) by {
            let i = choose|i: int| 0 <= i < front.len() && front[i] == c;
            assert(extension[i] == c);
        }
        lemma_last_dot(stem, front);
        assert(name.drop_last() =~= stem + seq!['.'] + front);
    } else {
        assert(name.last() == '.');
    }
}

proof fn lemma_no_dot(name: Seq<char>)
    requires
        forall|i: int| 1 <= i < name.len() ==> #[trigger] name[i] != '.',
    ensures
        last_dot(name) <= 0,
    decreases name.len(),
{
    if name.len() > 1 {
        assert(name.last() != '.');
        lemma_no_dot(name.drop_last());
    } else if name.len() == 1 {
        assert(last_dot(name.drop_last()) == -1);
    }
}

/// Which files are indexed: those with a name, a full stop and an extension
/// without one, that are no lockfile and whose extension, in lower case, is no
/// binary format's; and then under that extension.
pub proof fn law_indexed_files_have_an_extension(stem: Seq<char>, extension: Seq<char>)
    requires
        stem.len() > 0,
        !extension.contains('.'),
        stem + seq!['.'] + extension != seq!['.', '.'],
    ensures
        indexable(stem + seq!['.'] + extension) == if lockfiles().contains(
            stem + seq!['.'] + extension,
        ) || binary_formats().contains(lowered(extension)) {
            None
        } else {
            Some(extension)
        },
{
    let name = stem + seq!['.'] + extension;
    reveal_strlit("..");
    assert(".."@ =~= seq!['.', '.']);
    lemma_last_dot(stem, extension);
    assert(name.skip((stem.len() + 1) as int) =~= extension);
    law_lockfiles_are_those_listed(name);
    law_binary_formats_are_those_listed(extension);
}

/// A file without a full stop behind the first character of its name is not
/// indexed, and neither is what the name of two full stops stands for.
pub proof fn law_files_without_an_extension_are_not_indexed(name: Seq<char>)
    requires
        (forall|i: int| 1 <= i < name.len() ==> #[trigger] name[i] != '.') || name == seq!['.', '.'],
    ensures
        indexable(name) is None,
{
    reveal_strlit("..");
    assert(".."@ =~= seq!['.', '.']);
    if name != seq!['.', '.'] {
        lemma_no_dot(name);
    }
}

/// Every file of code is indexed, unless it is a lockfile.
pub proof fn law_code_is_indexed(stem: Seq<char>, extension: Seq<char>, grammar: Grammar)
    requires
        stem.len() > 0,
        code_extensions().contains((extension, grammar)),
        !lockfiles().contains(stem + seq!['.'] + extension),
    ensures
        indexable(stem + seq!['.'] + extension) == Some(extension),
{
    law_grammars_are_those_listed(extension, grammar);
    law_code_is_not_binary(extension);
    law_binary_formats_are_those_listed(extension);
    lemma_code_letters();
    assert(extension.len() >= 2);
    assert(!extension.contains('.')) by {
        if extension.contains('.') {
            let i = choose|i: int| 0 <= i < extension.len() && extension[i] == '.';
            assert(extension[i] != '.');
        }
    }
    assert((stem + seq!['.'] + extension).len() > 2);
    law_indexed_files_have_an_extension(stem, extension);
}

/// A file of code that parses is split along its syntax, by the grammar of its
/// language; every other file is split as plain text.
pub proof fn law_files_are_split_by_their_extension(
    extension: Seq<char>,
    content: Seq<char>,
    config: ChunkingConfig,
)
    ensures
        forall|grammar: Grammar|
            code_extensions().contains((extension, grammar)) ==> file_chunks(
                extension,
                content,
                config,
            ) == match #[trigger] syntax_end_rows(grammar, content) {
                Some(rows) => split_code(content, rows, config),
                None => text_chunks(lines_of(content), config),
            },
        (forall|grammar: Grammar| !code_extensions().contains((extension, grammar)))
            ==> file_chunks(extension, content, config) == text_chunks(lines_of(content), config),
{
    assert forall|grammar: Grammar| grammar_for(extension) == Some(grammar)
        <==> #[trigger] code_extensions().contains((extension, grammar)) by {
        law_grammars_are_those_listed(extension, grammar);
    }
    if grammar_for(extension) is Some {
        assert(code_extensions().contains((extension, grammar_for(extension)->0)));
    }
}

/// A URI names a directory exactly if it is `file://` followed by an absolute
/// path, which is then the directory.
pub proof fn law_file_uris_name_their_path(uri: Seq<char>, path: Seq<char>)
    ensures
        path_of(uri) == Some(path) <==> uri == seq!['f', 'i', 'l', 'e', ':', '/', '/'] + path
            && path.len() > 0 && path[0] == '/',
{
    reveal_strlit("file://");
    let scheme = seq!['f', 'i', 'l', 'e', ':', '/', '/'];
    assert("file://"@ =~= scheme);
    if path_of(uri) == Some(path) {
        assert(uri =~= scheme + path);
    }
    if uri == scheme + path && path.len() > 0 && path[0] == '/' {
        assert(uri.take(7) =~= scheme);
        assert(uri.skip(7) =~= path);
        assert(uri[7] == path[0]);
    }
}

/// As many files count as indexed as there are results of success.
pub proof fn law_successes_are_counted(results: Seq<Option<bool>>)
    ensures
        successes(results) == results.to_multiset().count(Some(true)),
    decreases results.len(),
{
    broadcast use vstd::seq_lib::group_to_multiset_ensures;

    if results.len() > 0 {
        let front = results.drop_last();
        law_successes_are_counted(front);
        assert(front.push(results.last()) =~= results);
        front.to_multiset_ensures();
    } else {
        results.to_multiset_ensures();
        assert(!results.contains(Some(true)));
    }
}

/// What a resource is after its indexing: failed exactly if there were files
/// and none was indexed, else indexed as of the end. The last error is the
/// number of files that could not be indexed, and what became of them; there
/// is none where all were. Everything else stays.
pub proof fn law_indexing_ends_as_its_files_did(
    resource: ResourceView,
    outcome: IndexOutcome,
    now: Seq<char>,
)
    ensures
        ({
            let after = indexed_with(resource, outcome, now);
            let failed = outcome.files_indexed == 0 && outcome.files_failed > 0;
            &&& after.indexing_status == if failed {
                IndexingStatus::Failed
            } else {
                IndexingStatus::Indexed
            }
            &&& after.last_indexed_at == if failed {
                resource.last_indexed_at
            } else {
                Some(now)
            }
            &&& outcome.files_failed == 0 ==> after.last_error is None
            &&& outcome.files_failed > 0 ==> after.last_error is Some && is_count_of(
                after.last_error->0,
                outcome.files_failed as nat,
                " file(s) could not be indexed"@,
            )
            &&& after == (ResourceView {
                indexing_status: after.indexing_status,
                last_indexed_at: after.last_indexed_at,
                last_error: after.last_error,
                ..resource
            })
        }),
{
    let n = outcome.files_failed as nat;
    let note = failure_note(outcome.files_failed);
    law_numerals_are_read_back(n);
    let k = numeral(n, 10).len() as int;
    assert(note.take(k) =~= numeral(n, 10));
    assert(note.skip(k) =~= " file(s) could not be indexed"@);
}

/// Whether a text is a number and then the given words.
pub open spec fn is_count_of(text: Seq<char>, n: nat, words: Seq<char>) -> bool {
    exists|k: int|
        0 <= k <= text.len() && number_of(#[trigger] text.take(k)) == Some(n) && text.skip(k)
            == words
}

/// What a resource is when its indexing starts: being indexed, as of now, and
/// otherwise what it was.
pub proof fn law_indexing_starts(resource: ResourceView, now: Seq<char>)
    ensures
        indexing_from(resource, now) == (ResourceView {
            indexing_status: IndexingStatus::Indexing,
            indexing_started_at: Some(now),
            ..resource
        }),
{
}

/// The fingerprint of a content is what the default hasher makes of all of its
/// bytes and a byte that UTF-8 never holds, in hexadecimal.
pub proof fn law_fingerprints_take_in_the_whole_content(content: Seq<char>)
    ensures
        positional(hash_of(content), 16) == DefaultHasher::spec_finish(
            seq![encode_utf8(content), seq![0xffu8]],
        ),
        hash_of(content).len() > 1 ==> hash_of(content)[0] != '0',
{
    law_numerals_stand_for_their_number(
        DefaultHasher::spec_finish(seq![encode_utf8(content), seq![0xffu8]]) as nat,
        16,
    );
}

} // verus!
