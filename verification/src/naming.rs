//! File names that are safe to store, and the media types they suggest.
use crate::encoding::utf8_len_bound;
use crate::text::{
    chars_of, ends_with, is_blank, is_control, is_control_char, is_white_space_char, lemma_strip_end,
    lemma_strip_start,
    strip_chars, strip_keeps_the_middle, stripped, text_from, text_of, trim_keeps_the_middle, trimmed,
    Strip,
};
use vstd::prelude::*;
use vstd::utf8::{encode_utf8, is_ascii_chars};

verus! {

/// The longest file name that is kept, in characters.
pub const MAX_NAME: usize = 180;

/// No media type that a name suggests takes more bytes.
pub const MAX_GUESSED_MIME: usize = 128;

// ------------------------------------------------------------------ file names
/// The characters that separate paths or that a file system reserves.
pub open spec fn is_reserved_char(c: char) -> bool {
    c == '/' || c == '\\' || c == ':' || c == '*' || c == '?' || c == '"' || c == '<' || c == '>'
        || c == '|'
}

/// What takes the place of `c` in a file name.
pub open spec fn safe_char(c: char) -> char {
    if is_reserved_char(c) || is_control_char(c) {
        '_'
    } else {
        c
    }
}

/// `name` with reserved and control characters replaced.
pub open spec fn replaced(name: Seq<char>) -> Seq<char> {
    name.map_values(|c: char| safe_char(c))
}

/// `name` with replaced characters, without full stops and spaces at its ends,
/// and then without white space there.
pub open spec fn cleaned(name: Seq<char>) -> Seq<char> {
    trimmed(stripped(replaced(name), Strip::DotsAndSpaces))
}

/// The name that a file called `name` is stored and sent under.
pub open spec fn sanitized(name: Seq<char>) -> Seq<char> {
    let kept = cleaned(name);
    if kept.len() == 0 {
        "file.bin"@
    } else if kept.len() > MAX_NAME {
        kept.take(MAX_NAME as int)
    } else {
        kept
    }
}

fn replace_char(c: char) -> (r: char)
    ensures
        r == safe_char(c),
{
    if c == '/' || c == '\\' || c == ':' || c == '*' || c == '?' || c == '"' || c == '<' || c == '>'
        || c == '|' || is_control(c) {
        '_'
    } else {
        c
    }
}

/// Makes `name` safe to store.
pub fn sanitize_file_name(name: &str) -> (r: String)
    ensures
        r@ == sanitized(name@),
{
    let chars: Vec<char> = chars_of(name);
    let mut clean: Vec<char> = Vec::new();
    let mut i: usize = 0;
    while i < chars.len()
        invariant
            i <= chars@.len(),
            clean@ == replaced(chars@.take(i as int)),
        decreases chars@.len() - i,
    {
        clean.push(replace_char(chars[i]));
        i = i + 1;
        assert(chars@.take(i as int) == chars@.take(i - 1).push(chars@[i - 1]));
    }
    assert(chars@.take(chars@.len() as int) == chars@);
    let kept: Vec<char> = strip_chars(&strip_chars(&clean, Strip::DotsAndSpaces), Strip::WhiteSpace);
    if kept.len() == 0 {
        "file.bin".to_owned()
    } else if kept.len() > MAX_NAME {
        assert(kept@.subrange(0, MAX_NAME as int) == kept@.take(MAX_NAME as int));
        text_of(&kept, 0, MAX_NAME)
    } else {
        text_from(&kept)
    }
}

/// What the characters of a stored name have in common.
pub open spec fn is_stored_char(c: char) -> bool {
    !is_reserved_char(c) && !is_control_char(c)
}

/// A name that files can be stored under: it is not empty, has at most 180
/// characters, and holds no path separator, reserved or control character.
pub open spec fn is_stored_name(name: Seq<char>) -> bool {
    &&& 1 <= name.len() <= MAX_NAME
    &&& forall|i: int| 0 <= i < name.len() ==> is_stored_char(#[trigger] name[i])
}

/// Files can be stored under a sanitized name.
pub proof fn sanitized_name_is_safe(name: Seq<char>)
    ensures
        is_stored_name(sanitized(name)),
        encode_utf8(sanitized(name)).len() <= 4 * MAX_NAME,
{
    let s = replaced(name);
    let a = lemma_strip_start(s, Strip::DotsAndSpaces);
    let b = lemma_strip_end(s.skip(a), Strip::DotsAndSpaces);
    let t = s.skip(a).take(b);
    let c = lemma_strip_start(t, Strip::WhiteSpace);
    let d = lemma_strip_end(t.skip(c), Strip::WhiteSpace);
    let kept = t.skip(c).take(d);
    assert(cleaned(name) == kept);
    assert forall|i: int| 0 <= i < kept.len() implies is_stored_char(#[trigger] kept[i]) by {
        assert(kept[i] == s[a + c + i]);
        assert(s[a + c + i] == safe_char(name[a + c + i]));
    }
    reveal_strlit("file.bin");
    utf8_len_bound(sanitized(name));
}

/// No character of a stored name can lead out of a directory, ends a line or
/// means something to a shell or a file system.
pub proof fn no_separator_is_stored(name: Seq<char>, i: int)
    requires
        0 <= i < sanitized(name).len(),
    ensures
        ({
            let c = sanitized(name)[i];
            &&& c != '/' && c != '\\' && c != ':' && c != '*' && c != '?'
            &&& c != '"' && c != '<' && c != '>' && c != '|'
            &&& ' ' <= c && !('\u{7f}' <= c <= '\u{9f}')
        }),
{
    sanitized_name_is_safe(name);
    assert(is_stored_char(sanitized(name)[i]));
}

/// What a name is made of that is stored under what stands in its middle: at the
/// ends full stops and spaces, then white space, and between them what is kept.
/// Of that the first 180 characters stay, and each is kept or, where it is
/// reserved or a control character, replaced by an underscore.
pub proof fn sanitized_name_is_the_middle(
    lead: Seq<char>,
    white: Seq<char>,
    kept: Seq<char>,
    also_white: Seq<char>,
    trail: Seq<char>,
)
    requires
        forall|i: int| 0 <= i < lead.len() ==> #[trigger] lead[i] == '.' || lead[i] == ' ',
        forall|i: int| 0 <= i < trail.len() ==> #[trigger] trail[i] == '.' || trail[i] == ' ',
        forall|i: int|
            0 <= i < white.len() ==> is_white_space_char(#[trigger] white[i]) && !is_control_char(
                white[i],
            ),
        forall|i: int|
            0 <= i < also_white.len() ==> is_white_space_char(#[trigger] also_white[i])
                && !is_control_char(also_white[i]),
        ({
            let inner = white + kept + also_white;
            inner.len() > 0 ==> {
                &&& inner[0] != '.' && inner[0] != ' '
                &&& inner.last() != '.' && inner.last() != ' '
            }
        }),
        kept.len() > 0 ==> {
            &&& !is_white_space_char(kept[0]) || is_control_char(kept[0])
            &&& !is_white_space_char(kept.last()) || is_control_char(kept.last())
        },
    ensures
        ({
            let name = lead + (white + kept + also_white) + trail;
            &&& kept.len() == 0 ==> sanitized(name) == "file.bin"@
            &&& kept.len() > 0 ==> {
                &&& sanitized(name).len() == (if kept.len() <= 180 {
                    kept.len() as int
                } else {
                    180
                })
                &&& forall|i: int|
                    0 <= i < sanitized(name).len() ==> #[trigger] sanitized(name)[i] == (if is_stored_char(
                        kept[i],
                    ) {
                        kept[i]
                    } else {
                        '_'
                    })
            }
        }),
{
    let inner = white + kept + also_white;
    let name = lead + inner + trail;
    assert(replaced(name) =~= replaced(lead) + replaced(inner) + replaced(trail));
    assert(replaced(inner) =~= replaced(white) + replaced(kept) + replaced(also_white));
    if inner.len() > 0 {
        assert(replaced(inner)[0] == safe_char(inner[0]));
        assert(replaced(inner).last() == safe_char(inner.last()));
    }
    if kept.len() > 0 {
        assert(replaced(kept)[0] == safe_char(kept[0]));
        assert(replaced(kept).last() == safe_char(kept.last()));
    }
    assert(forall|i: int| 0 <= i < lead.len() ==> #[trigger] replaced(lead)[i] == safe_char(lead[i]));
    assert(forall|i: int|
        0 <= i < trail.len() ==> #[trigger] replaced(trail)[i] == safe_char(trail[i]));
    assert(forall|i: int|
        0 <= i < white.len() ==> #[trigger] replaced(white)[i] == safe_char(white[i]));
    assert(forall|i: int|
        0 <= i < also_white.len() ==> #[trigger] replaced(also_white)[i] == safe_char(also_white[i]));
    strip_keeps_the_middle(replaced(lead), replaced(inner), replaced(trail), Strip::DotsAndSpaces);
    trim_keeps_the_middle(replaced(white), replaced(kept), replaced(also_white));
    assert(cleaned(name) == replaced(kept));
    assert(forall|i: int| 0 <= i < kept.len() ==> #[trigger] replaced(kept)[i] == safe_char(kept[i]));
}

/// A name that needs no change: short, safe, and with no full stop, space or
/// white space at either end.
pub open spec fn is_clean_name(name: Seq<char>) -> bool {
    &&& is_stored_name(name)
    &&& !Strip::DotsAndSpaces.removes(name[0]) && !Strip::WhiteSpace.removes(name[0])
    &&& !Strip::DotsAndSpaces.removes(name.last()) && !Strip::WhiteSpace.removes(name.last())
}

/// A clean name is kept as it is.
pub proof fn clean_name_is_kept(name: Seq<char>)
    requires
        is_clean_name(name),
    ensures
        sanitized(name) == name,
{
    assert forall|i: int| 0 <= i < name.len() implies #[trigger] replaced(name)[i] == name[i] by {
        assert(is_stored_char(name[i]));
    }
    assert(replaced(name) == name);
}

// ----------------------------------------------------------------- media types
/// What `str::to_lowercase` makes of a text with characters beyond ASCII, from
/// that text with its ASCII letters in lower case.
pub uninterp spec fn unicode_lowercase(text: Seq<char>) -> Seq<char>;

/// The lower-case form of an ASCII character.
pub open spec fn ascii_lower(c: char) -> char {
    if 'A' <= c <= 'Z' {
        (c as u32 + 32) as char
    } else {
        c
    }
}

/// The text with its ASCII letters in lower case.
pub open spec fn ascii_lowered(text: Seq<char>) -> Seq<char> {
    text.map_values(|c: char| ascii_lower(c))
}

/// The lower-case form of a text.
pub open spec fn lowercase(text: Seq<char>) -> Seq<char> {
    if is_ascii_chars(text) {
        ascii_lowered(text)
    } else {
        unicode_lowercase(ascii_lowered(text))
    }
}

/// `str::to_lowercase` maps the ASCII letters `A` to `Z` to `a` to `z` and
/// leaves other ASCII characters as they are, so that the ASCII characters at
/// the end of a text stay at its end. It makes the same of a text whose ASCII
/// letters are in lower case already: the one character whose mapping depends
/// on its surroundings, the capital sigma, looks at where its word ends and not
/// at letter case. What it makes of other characters is left to the name.
#[verifier::external_body]
fn lowercase_text(text: &str) -> (r: String)
    ensures
        is_ascii_chars(text@) ==> r@ == ascii_lowered(text@),
        !is_ascii_chars(text@) ==> r@ == unicode_lowercase(ascii_lowered(text@)),
        forall|k: int|
            0 <= k <= text@.len() && is_ascii_chars(#[trigger] text@.skip(k)) ==> ascii_lowered(
                text@.skip(k),
            ).is_suffix_of(r@),
{
    text.to_lowercase()
}

/// The media type of a file with the lower-case name `lower`.
pub open spec fn mime_of_lower(lower: Seq<char>) -> Seq<char> {
    if ".pdf"@.is_suffix_of(lower) {
        "application/pdf"@
    } else if ".png"@.is_suffix_of(lower) {
        "image/png"@
    } else if ".jpg"@.is_suffix_of(lower) || ".jpeg"@.is_suffix_of(lower) {
        "image/jpeg"@
    } else if ".gif"@.is_suffix_of(lower) {
        "image/gif"@
    } else if ".txt"@.is_suffix_of(lower) || ".md"@.is_suffix_of(lower) {
        "text/plain; charset=utf-8"@
    } else if ".json"@.is_suffix_of(lower) {
        "application/json"@
    } else if ".zip"@.is_suffix_of(lower) {
        "application/zip"@
    } else {
        "application/octet-stream"@
    }
}

/// Whether a name with ASCII letters in lower case ends in a known extension.
pub open spec fn has_known_extension(name: Seq<char>) -> bool {
    ||| ".pdf"@.is_suffix_of(name)
    ||| ".png"@.is_suffix_of(name)
    ||| ".jpg"@.is_suffix_of(name)
    ||| ".jpeg"@.is_suffix_of(name)
    ||| ".gif"@.is_suffix_of(name)
    ||| ".txt"@.is_suffix_of(name)
    ||| ".md"@.is_suffix_of(name)
    ||| ".json"@.is_suffix_of(name)
    ||| ".zip"@.is_suffix_of(name)
}

/// The media type of a file called `name`. A known extension in ASCII letters
/// decides it, whatever stands before it.
pub open spec fn mime_of(name: Seq<char>) -> Seq<char> {
    if has_known_extension(ascii_lowered(name)) {
        mime_of_lower(ascii_lowered(name))
    } else {
        mime_of_lower(lowercase(name))
    }
}

/// The media type of a file with the lower-case name `lower`.
pub fn mime_of_lowercase(lower: &str) -> (r: String)
    ensures
        r@ == mime_of_lower(lower@),
{
    let chars: Vec<char> = chars_of(lower);
    if ends_with(&chars, ".pdf") {
        "application/pdf".to_owned()
    } else if ends_with(&chars, ".png") {
        "image/png".to_owned()
    } else if ends_with(&chars, ".jpg") || ends_with(&chars, ".jpeg") {
        "image/jpeg".to_owned()
    } else if ends_with(&chars, ".gif") {
        "image/gif".to_owned()
    } else if ends_with(&chars, ".txt") || ends_with(&chars, ".md") {
        "text/plain; charset=utf-8".to_owned()
    } else if ends_with(&chars, ".json") {
        "application/json".to_owned()
    } else if ends_with(&chars, ".zip") {
        "application/zip".to_owned()
    } else {
        "application/octet-stream".to_owned()
    }
}

/// Whether `ext` is a file name extension with its full stop.
spec fn is_extension(ext: Seq<char>) -> bool {
    &&& ext.len() > 0
    &&& ext[0] == '.'
    &&& is_ascii_chars(ext)
    &&& forall|i: int| 0 < i < ext.len() ==> #[trigger] ext[i] != '.'
}

proof fn lemma_one_extension(s: Seq<char>, e: Seq<char>, f: Seq<char>)
    requires
        is_extension(e),
        is_extension(f),
        e.is_suffix_of(s),
        f.is_suffix_of(s),
    ensures
        e == f,
{
    let n = s.len() as int;
    assert(forall|i: int| 0 <= i < e.len() ==> #[trigger] e[i] == s[n - e.len() + i]);
    assert(forall|i: int| 0 <= i < f.len() ==> #[trigger] f[i] == s[n - f.len() + i]);
    if e.len() < f.len() {
        assert(f[f.len() - e.len()] == e[0]);
    }
    if f.len() < e.len() {
        assert(e[e.len() - f.len()] == f[0]);
    }
    assert(e =~= f);
}

proof fn lemma_same_extension(s: Seq<char>, t: Seq<char>, e: Seq<char>)
    requires
        is_extension(e),
        e.is_suffix_of(s),
        e.is_suffix_of(t),
    ensures
        mime_of_lower(s) == mime_of_lower(t),
{
    assert forall|f: Seq<char>| is_extension(f) implies #[trigger] f.is_suffix_of(s)
        == f.is_suffix_of(t) by {
        if f.is_suffix_of(s) {
            lemma_one_extension(s, e, f);
        }
        if f.is_suffix_of(t) {
            lemma_one_extension(t, e, f);
        }
    }
    lemma_extensions();
}

proof fn lemma_extensions()
    ensures
        is_extension(".pdf"@),
        is_extension(".png"@),
        is_extension(".jpg"@),
        is_extension(".jpeg"@),
        is_extension(".gif"@),
        is_extension(".txt"@),
        is_extension(".md"@),
        is_extension(".json"@),
        is_extension(".zip"@),
{
    reveal_strlit(".pdf");
    reveal_strlit(".png");
    reveal_strlit(".jpg");
    reveal_strlit(".jpeg");
    reveal_strlit(".gif");
    reveal_strlit(".txt");
    reveal_strlit(".md");
    reveal_strlit(".json");
    reveal_strlit(".zip");
}

proof fn lemma_extension_is_kept(name: Seq<char>, lower: Seq<char>, ext: Seq<char>)
    requires
        forall|k: int|
            0 <= k <= name.len() && is_ascii_chars(#[trigger] name.skip(k)) ==> ascii_lowered(
                name.skip(k),
            ).is_suffix_of(lower),
        is_ascii_chars(ext),
        ext.is_suffix_of(ascii_lowered(name)),
    ensures
        ext.is_suffix_of(lower),
{
    let k = name.len() - ext.len();
    let tail = name.skip(k);
    assert forall|i: int| 0 <= i < tail.len() implies ascii_lower(#[trigger] tail[i]) == ext[i] by {
        assert(ascii_lowered(name)[k + i] == ext[i]);
    }
    assert(ascii_lowered(tail) =~= ext);
    assert forall|i: int| 0 <= i < tail.len() implies '\0' <= #[trigger] tail[i] <= '\u{7f}' by {
        assert(ascii_lower(tail[i]) == ext[i]);
    }
    assert(is_ascii_chars(tail));
}

proof fn lemma_known_extension(name: Seq<char>, lower: Seq<char>)
    requires
        forall|k: int|
            0 <= k <= name.len() && is_ascii_chars(#[trigger] name.skip(k)) ==> ascii_lowered(
                name.skip(k),
            ).is_suffix_of(lower),
        has_known_extension(ascii_lowered(name)),
    ensures
        mime_of_lower(lower) == mime_of_lower(ascii_lowered(name)),
{
    lemma_extensions();
    let e = choose|e: Seq<char>| is_extension(e) && #[trigger] e.is_suffix_of(ascii_lowered(name));
    lemma_extension_is_kept(name, lower, e);
    lemma_same_extension(lower, ascii_lowered(name), e);
}

/// The media type that a file's name suggests, whatever its letter case.
pub fn simple_mime(path_or_name: &str) -> (r: String)
    ensures
        r@ == mime_of(path_or_name@),
        r@ == mime_of_lower(lowercase(path_or_name@)),
{
    let lower: String = lowercase_text(path_or_name);
    proof {
        if has_known_extension(ascii_lowered(path_or_name@)) {
            lemma_known_extension(path_or_name@, lower@);
        }
    }
    mime_of_lowercase(lower.as_str())
}

/// Names that differ in nothing but the case of ASCII letters suggest the same
/// media type.
pub proof fn mime_ignores_case(a: Seq<char>, b: Seq<char>)
    requires
        ascii_lowered(a) == ascii_lowered(b),
    ensures
        mime_of(a) == mime_of(b),
{
    lemma_lowered_is_ascii(a);
    lemma_lowered_is_ascii(b);
}

proof fn lemma_lowered_is_ascii(text: Seq<char>)
    ensures
        is_ascii_chars(ascii_lowered(text)) == is_ascii_chars(text),
{
    let low = ascii_lowered(text);
    assert(forall|i: int| 0 <= i < text.len() ==> low[i] == ascii_lower(#[trigger] text[i]));
    if is_ascii_chars(low) {
        assert forall|i: int| 0 <= i < text.len() implies '\0' <= #[trigger] text[i]
            <= '\u{7f}' by {
            assert('\0' <= low[i] <= '\u{7f}');
        }
    }
    if is_ascii_chars(text) {
        assert forall|i: int| 0 <= i < low.len() implies '\0' <= #[trigger] low[i]
            <= '\u{7f}' by {
            assert('\0' <= text[i] <= '\u{7f}');
        }
    }
}

/// The upper-case form of an ASCII character.
pub open spec fn ascii_upper(c: char) -> char {
    if 'a' <= c <= 'z' {
        (c as u32 - 32) as char
    } else {
        c
    }
}

/// Raising the ASCII letters of a name to upper case keeps the media type that
/// it suggests.
pub proof fn mime_of_raised_name(name: Seq<char>)
    ensures
        mime_of(name.map_values(|c: char| ascii_upper(c))) == mime_of(name),
{
    let raised = name.map_values(|c: char| ascii_upper(c));
    assert(ascii_lowered(raised) =~= ascii_lowered(name));
    mime_ignores_case(raised, name);
}

proof fn lemma_mime_of_ending(x: Seq<char>, ext: Seq<char>)
    requires
        is_extension(ext),
        ext.is_suffix_of(x),
    ensures
        ext == ".pdf"@ ==> mime_of_lower(x) == "application/pdf"@,
        ext == ".png"@ ==> mime_of_lower(x) == "image/png"@,
        ext == ".jpg"@ ==> mime_of_lower(x) == "image/jpeg"@,
        ext == ".jpeg"@ ==> mime_of_lower(x) == "image/jpeg"@,
        ext == ".gif"@ ==> mime_of_lower(x) == "image/gif"@,
        ext == ".txt"@ ==> mime_of_lower(x) == "text/plain; charset=utf-8"@,
        ext == ".md"@ ==> mime_of_lower(x) == "text/plain; charset=utf-8"@,
        ext == ".json"@ ==> mime_of_lower(x) == "application/json"@,
        ext == ".zip"@ ==> mime_of_lower(x) == "application/zip"@,
{
    lemma_extensions();
    assert forall|f: Seq<char>| is_extension(f) && #[trigger] f.is_suffix_of(x) implies f
        == ext by {
        lemma_one_extension(x, ext, f);
    }
    lemma_extensions_differ();
}

proof fn lemma_extensions_differ()
    ensures
        ".pdf"@[1] == 'p' && ".pdf"@[2] == 'd',
        ".png"@[1] == 'p' && ".png"@[2] == 'n',
        ".jpg"@[1] == 'j' && ".jpg"@[2] == 'p' && ".jpg"@.len() == 4,
        ".jpeg"@[1] == 'j' && ".jpeg"@[2] == 'p' && ".jpeg"@.len() == 5,
        ".gif"@[1] == 'g',
        ".txt"@[1] == 't',
        ".md"@[1] == 'm',
        ".json"@[1] == 'j' && ".json"@[2] == 's',
        ".zip"@[1] == 'z',
{
    reveal_strlit(".pdf");
    reveal_strlit(".png");
    reveal_strlit(".jpg");
    reveal_strlit(".jpeg");
    reveal_strlit(".gif");
    reveal_strlit(".txt");
    reveal_strlit(".md");
    reveal_strlit(".json");
    reveal_strlit(".zip");
}

proof fn lemma_known_ending(head: Seq<char>, ext: Seq<char>)
    requires
        is_extension(ext),
        forall|i: int| 0 <= i < ext.len() ==> !('A' <= #[trigger] ext[i] <= 'Z'),
        has_known_extension(ext),
    ensures
        ext.is_suffix_of(ascii_lowered(head + ext)),
        mime_of(head + ext) == mime_of_lower(ascii_lowered(head + ext)),
{
    let x = ascii_lowered(head + ext);
    assert(x =~= ascii_lowered(head) + ext);
    assert(x.subrange(x.len() - ext.len(), x.len() as int) =~= ext);
    assert forall|f: Seq<char>| #[trigger] f.is_suffix_of(ext) implies f.is_suffix_of(x) by {
        assert(x.subrange(x.len() - f.len(), x.len() as int) =~= ext.subrange(
            ext.len() - f.len(),
            ext.len() as int,
        ));
    }
}

proof fn lemma_is_own_suffix(ext: Seq<char>)
    ensures
        ext.is_suffix_of(ext),
{
    assert(ext.subrange(0, ext.len() as int) =~= ext);
}

/// The extension of a name decides its media type, whatever stands before it.
pub proof fn extension_decides_mime(head: Seq<char>)
    ensures
        mime_of(head + ".pdf"@) == "application/pdf"@,
        mime_of(head + ".png"@) == "image/png"@,
        mime_of(head + ".jpg"@) == "image/jpeg"@,
        mime_of(head + ".jpeg"@) == "image/jpeg"@,
        mime_of(head + ".gif"@) == "image/gif"@,
        mime_of(head + ".txt"@) == "text/plain; charset=utf-8"@,
        mime_of(head + ".md"@) == "text/plain; charset=utf-8"@,
        mime_of(head + ".json"@) == "application/json"@,
        mime_of(head + ".zip"@) == "application/zip"@,
{
    lemma_extensions();
    reveal_strlit(".pdf");
    reveal_strlit(".png");
    reveal_strlit(".jpg");
    reveal_strlit(".jpeg");
    reveal_strlit(".gif");
    reveal_strlit(".txt");
    reveal_strlit(".md");
    reveal_strlit(".json");
    reveal_strlit(".zip");
    lemma_is_own_suffix(".pdf"@);
    lemma_is_own_suffix(".png"@);
    lemma_is_own_suffix(".jpg"@);
    lemma_is_own_suffix(".jpeg"@);
    lemma_is_own_suffix(".gif"@);
    lemma_is_own_suffix(".txt"@);
    lemma_is_own_suffix(".md"@);
    lemma_is_own_suffix(".json"@);
    lemma_is_own_suffix(".zip"@);
    lemma_known_ending(head, ".pdf"@);
    lemma_known_ending(head, ".png"@);
    lemma_known_ending(head, ".jpg"@);
    lemma_known_ending(head, ".jpeg"@);
    lemma_known_ending(head, ".gif"@);
    lemma_known_ending(head, ".txt"@);
    lemma_known_ending(head, ".md"@);
    lemma_known_ending(head, ".json"@);
    lemma_known_ending(head, ".zip"@);
    lemma_mime_of_ending(ascii_lowered(head + ".pdf"@), ".pdf"@);
    lemma_mime_of_ending(ascii_lowered(head + ".png"@), ".png"@);
    lemma_mime_of_ending(ascii_lowered(head + ".jpg"@), ".jpg"@);
    lemma_mime_of_ending(ascii_lowered(head + ".jpeg"@), ".jpeg"@);
    lemma_mime_of_ending(ascii_lowered(head + ".gif"@), ".gif"@);
    lemma_mime_of_ending(ascii_lowered(head + ".txt"@), ".txt"@);
    lemma_mime_of_ending(ascii_lowered(head + ".md"@), ".md"@);
    lemma_mime_of_ending(ascii_lowered(head + ".json"@), ".json"@);
    lemma_mime_of_ending(ascii_lowered(head + ".zip"@), ".zip"@);
}

/// A name whose lower-case form ends in no known extension says nothing of what
/// the file holds.
pub proof fn unknown_extension_is_any_bytes(name: Seq<char>)
    requires
        !has_known_extension(lowercase(name)),
        !has_known_extension(ascii_lowered(name)),
    ensures
        mime_of(name) == "application/octet-stream"@,
{
}

/// The media types that names suggest are short.
pub proof fn mime_is_short(name: Seq<char>)
    ensures
        0 < mime_of(name).len() <= 32,
        encode_utf8(mime_of(name)).len() <= MAX_GUESSED_MIME,
{
    reveal_strlit("application/pdf");
    reveal_strlit("image/png");
    reveal_strlit("image/jpeg");
    reveal_strlit("image/gif");
    reveal_strlit("text/plain; charset=utf-8");
    reveal_strlit("application/json");
    reveal_strlit("application/zip");
    reveal_strlit("application/octet-stream");
    utf8_len_bound(mime_of(name));
}

/// The media type that was given, or the one that the name suggests where what
/// was given is blank.
pub open spec fn chosen_mime(given: Seq<char>, name: Seq<char>) -> Seq<char> {
    if trimmed(given).len() > 0 {
        given
    } else {
        mime_of(name)
    }
}

/// The media type that was given, or the one that the name suggests where what
/// was given is blank.
pub fn mime_or_guess(given: String, name: &str) -> (r: String)
    ensures
        r@ == chosen_mime(given@, name@),
        trimmed(given@).len() > 0 ==> r@ == given@,
        trimmed(given@).len() == 0 ==> r@ == mime_of(name@),
{
    if is_blank(given.as_str()) {
        simple_mime(name)
    } else {
        given
    }
}

} // verus!
