//! Recognizing font files by name and finding a font in the list.

use vstd::prelude::*;
use crate::text::chars_of;

verus! {

/// The position of the last `'.'` in `name`.
pub open spec fn last_dot(name: Seq<char>) -> Option<int>
    decreases name.len(),
{
    if name.len() == 0 {
        None
    } else if name.last() == '.' {
        Some(name.len() - 1)
    } else {
        last_dot(name.drop_last())
    }
}

/// The extension of a file name as `Path::extension` documents it: nothing
/// without a `'.'` or when the only `'.'` starts the name, else what follows
/// the last `'.'`.
pub open spec fn file_extension(name: Seq<char>) -> Option<Seq<char>> {
    match last_dot(name) {
        None => None,
        Some(i) => if i == 0 { None } else { Some(name.skip(i + 1)) },
    }
}

/// `c` is the ASCII letter `lower` in either case.
pub open spec fn letter_either_case(c: char, lower: char) -> bool {
    c == lower || (c as int) == (lower as int) - 32
}

/// `ext`, lowercased, is `a`, `b`, `c`.
pub open spec fn is_extension(ext: Seq<char>, a: char, b: char, c: char) -> bool {
    &&& ext.len() == 3
    &&& letter_either_case(ext[0], a)
    &&& letter_either_case(ext[1], b)
    &&& letter_either_case(ext[2], c)
}

/// A file whose extension, lowercased, is `ttf` or `otf`.
pub open spec fn is_font_file_name(name: Seq<char>) -> bool {
    match file_extension(name) {
        Some(ext) => is_extension(ext, 't', 't', 'f') || is_extension(ext, 'o', 't', 'f'),
        None => false,
    }
}

fn letter_matches(c: char, lower: char, upper: char) -> (r: bool)
    requires
        (upper as int) == (lower as int) - 32,
    ensures
        r == letter_either_case(c, lower),
{
    c == lower || c == upper
}

/// Whether the file `file_name` is a TrueType or OpenType font by its
/// extension (`ttf` or `otf`, in any case).
pub fn has_font_extension(file_name: &str) -> (r: bool)
    ensures
        r == is_font_file_name(file_name@),
{
    let chars = chars_of(file_name);
    let n = chars.len();
    let mut i = n;
    assert(chars@.take(n as int) == chars@);
    while i > 0 && chars[i - 1] != '.'
        invariant
            n == chars@.len(),
            i <= n,
            last_dot(chars@) == last_dot(chars@.take(i as int)),
        decreases i,
    {
        assert(chars@.take(i as int).drop_last() == chars@.take(i - 1));
        i = i - 1;
    }
    if i == 0 {
        assert(chars@.take(0) == Seq::<char>::empty());
        return false;
    }
    assert(chars@.take(i as int).last() == chars@[i - 1]);
    let dot = i - 1;
    if dot == 0 {
        return false;
    }
    let ghost ext = chars@.skip(i as int);
    if n - i != 3 {
        return false;
    }
    assert(ext[0] == chars@[i as int]);
    assert(ext[1] == chars@[i + 1]);
    assert(ext[2] == chars@[i + 2]);
    let third = letter_matches(chars[i + 2], 'f', 'F');
    let second = letter_matches(chars[i + 1], 't', 'T');
    let first_t = letter_matches(chars[i], 't', 'T');
    let first_o = letter_matches(chars[i], 'o', 'O');
    (first_t || first_o) && second && third
}

/// The index of the first of `names` that equals `name`.
pub fn find_font(names: &Vec<String>, name: &str) -> (r: Option<usize>)
    ensures
        match r {
            Some(i) => i < names@.len() && names@[i as int]@ == name@ && forall|k: int|
                0 <= k < i ==> (#[trigger] names@[k])@ != name@,
            None => forall|k: int| 0 <= k < names@.len() ==> (#[trigger] names@[k])@ != name@,
        },
{
    let target = String::from_str(name);
    let n = names.len();
    for i in 0..n
        invariant
            n == names@.len(),
            target@ == name@,
            forall|k: int| 0 <= k < i ==> (#[trigger] names@[k])@ != name@,
    {
        if names[i] == target {
            return Some(i);
        }
    }
    None
}

/// A parsed font.
#[verifier::external_type_specification]
#[verifier::external_body]
pub struct ExFont(fontdue::Font);

/// Whether `fontdue::Font::from_bytes` with the default settings accepts the
/// font file `data`.
pub uninterp spec fn font_accepts(data: Seq<u8>) -> bool;

/// Parses a font file with `fontdue::Font::from_bytes` and the default
/// settings.  The contract claims that success depends on the bytes alone
/// (`font_accepts`): the errors come from parsing the tables and from glyph
/// indices out of range, neither of which depends on anything else; which
/// files parse is left unsaid.
#[verifier::external_body]
fn parse_font(data: &Vec<u8>) -> (r: Result<fontdue::Font, &'static str>)
    ensures
        r is Ok <==> font_accepts(data@),
{
    fontdue::Font::from_bytes(data.as_slice(), fontdue::FontSettings::default())
}

/// The file `name` with contents `data` (`None` when it was not read) is a
/// usable font: its extension is `ttf` or `otf` and its bytes parse.
pub open spec fn font_loads(name: Seq<char>, data: Option<Vec<u8>>) -> bool {
    &&& is_font_file_name(name)
    &&& data is Some
    &&& font_accepts(data.unwrap()@)
}

/// The indices, in order, of the first `n` files that are usable fonts.
pub open spec fn font_indices(names: Seq<String>, datas: Seq<Option<Vec<u8>>>, n: int) -> Seq<usize>
    decreases n,
{
    if n <= 0 {
        Seq::<usize>::empty()
    } else if font_loads(names[n - 1]@, datas[n - 1]) {
        font_indices(names, datas, n - 1).push((n - 1) as usize)
    } else {
        font_indices(names, datas, n - 1)
    }
}

/// The fonts of a folder listing: for each file `names[i]` with contents
/// `datas[i]` that is a usable font, in listing order, its index and the
/// parsed font.
pub fn load_fonts(names: &Vec<String>, datas: &Vec<Option<Vec<u8>>>) -> (r: Vec<(usize, fontdue::Font)>)
    requires
        names@.len() == datas@.len(),
    ensures
        r@.len() == font_indices(names@, datas@, names@.len() as int).len(),
        forall|k: int| 0 <= k < r@.len() ==> #[trigger] r@[k].0 == font_indices(names@, datas@, names@.len() as int)[k],
{
    let n = names.len();
    let mut out: Vec<(usize, fontdue::Font)> = Vec::new();
    for i in 0..n
        invariant
            n == names@.len(),
            n == datas@.len(),
            out@.len() == font_indices(names@, datas@, i as int).len(),
            forall|k: int| 0 <= k < out@.len() ==> #[trigger] out@[k].0 == font_indices(names@, datas@, i as int)[k],
    {
        let ghost before = out@;
        match &datas[i] {
            Some(data) => {
                if has_font_extension(names[i].as_str()) {
                    match parse_font(data) {
                        Ok(font) => {
                            out.push((i, font));
                        },
                        Err(_) => {},
                    }
                }
            },
            None => {},
        }
        assert forall|k: int| 0 <= k < out@.len() implies #[trigger] out@[k].0 == font_indices(names@, datas@, i + 1)[k] by {
            if k < before.len() {
                assert(out@[k] == before[k]);
            }
        }
    }
    out
}

} // verus!
