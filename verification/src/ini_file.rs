//! The INI files of the `ini` crate: what one holds, how it is read, changed and written.
//!
//! What is said here of that crate is believed, not proved.

use vstd::prelude::*;

verus! {

/// A parsed INI file of the `ini` crate.
#[verifier::external_type_specification]
#[verifier::external_body]
pub struct ExIni(ini::Ini);

/// The key-value pairs of one section.
#[verifier::external_type_specification]
#[verifier::external_body]
pub struct ExProperties(ini::Properties);

/// The sections of a file in their order, each with its name (`None` for what stands before the
/// first header) and its key-value pairs in their order.
pub uninterp spec fn ini_sections(file: ini::Ini) -> Seq<
    (Option<Seq<char>>, Seq<(Seq<char>, Seq<char>)>),
>;

/// The key-value pairs of one section, in their order.
pub uninterp spec fn ini_properties(properties: ini::Properties) -> Seq<(Seq<char>, Seq<char>)>;

/// What the INI grammar makes of a text: its sections, or the line, the column and the message of
/// the first mistake.
pub uninterp spec fn ini_loaded(text: Seq<char>) -> Result<
    Seq<(Option<Seq<char>>, Seq<(Seq<char>, Seq<char>)>)>,
    (usize, usize, Seq<char>),
>;

/// A mistake in the syntax of an INI file.
#[derive(Debug)]
pub struct SyntaxError {
    pub line: usize,
    pub col: usize,
    pub msg: String,
}

impl View for SyntaxError {
    type V = (usize, usize, Seq<char>);

    open spec fn view(&self) -> (usize, usize, Seq<char>) {
        (self.line, self.col, self.msg@)
    }
}

/// The value of the first pair with this key.
pub open spec fn first_value(
    properties: Seq<(Seq<char>, Seq<char>)>,
    key: Seq<char>,
) -> Option<Seq<char>>
    decreases properties.len(),
{
    if properties.len() == 0 {
        None
    } else if properties[0].0 == key {
        Some(properties[0].1)
    } else {
        first_value(properties.drop_first(), key)
    }
}

/// The pairs of the first section with this name.
pub open spec fn first_section(
    sections: Seq<(Option<Seq<char>>, Seq<(Seq<char>, Seq<char>)>)>,
    name: Seq<char>,
) -> Option<Seq<(Seq<char>, Seq<char>)>>
    decreases sections.len(),
{
    if sections.len() == 0 {
        None
    } else if sections[0].0 == Some(name) {
        Some(sections[0].1)
    } else {
        first_section(sections.drop_first(), name)
    }
}

/// Whether a pair has another key.
pub open spec fn other_key(key: Seq<char>) -> spec_fn((Seq<char>, Seq<char>)) -> bool {
    |pair: (Seq<char>, Seq<char>)| pair.0 != key
}

/// The pairs after `key` was given the one value `value`: the pair stands last.
pub open spec fn with_value(
    properties: Seq<(Seq<char>, Seq<char>)>,
    key: Seq<char>,
    value: Seq<char>,
) -> Seq<(Seq<char>, Seq<char>)> {
    properties.filter(other_key(key)).push((key, value))
}

/// The sections after `key` was given the value `value` in the first section with this name,
/// which is added at the end where there is none.
pub open spec fn with_pair(
    sections: Seq<(Option<Seq<char>>, Seq<(Seq<char>, Seq<char>)>)>,
    name: Seq<char>,
    key: Seq<char>,
    value: Seq<char>,
) -> Seq<(Option<Seq<char>>, Seq<(Seq<char>, Seq<char>)>)>
    decreases sections.len(),
{
    if sections.len() == 0 {
        seq![(Some(name), seq![(key, value)])]
    } else if sections[0].0 == Some(name) {
        seq![(Some(name), with_value(sections[0].1, key, value))] + sections.drop_first()
    } else {
        seq![sections[0]] + with_pair(sections.drop_first(), name, key, value)
    }
}

/// The lines for key-value pairs.
pub open spec fn pairs_text(properties: Seq<(Seq<char>, Seq<char>)>) -> Seq<char>
    decreases properties.len(),
{
    if properties.len() == 0 {
        Seq::empty()
    } else {
        pairs_text(properties.drop_last()) + properties.last().0 + seq!['='] + properties.last().1
            + seq!['\n']
    }
}

/// The line for a section's name.
pub open spec fn header_text(name: Option<Seq<char>>) -> Seq<char> {
    match name {
        Some(name) => seq!['['] + name + seq![']', '\n'],
        None => Seq::empty(),
    }
}

/// How sections are laid out in a file: one line for each name and each pair, and an empty line
/// before a section with pairs that is not the first such.
pub open spec fn layout(
    sections: Seq<(Option<Seq<char>>, Seq<(Seq<char>, Seq<char>)>)>,
) -> Seq<char>
    decreases sections.len(),
{
    if sections.len() == 0 {
        Seq::empty()
    } else {
        let before = sections.drop_last();
        let gap: Seq<char> = if sections.last().1.len() > 0 && exists|i: int|
            0 <= i < before.len() && (#[trigger] before[i]).1.len() > 0 {
            seq!['\n']
        } else {
            Seq::empty()
        };
        layout(before) + gap + header_text(sections.last().0) + pairs_text(sections.last().1)
    }
}

/// No character that is escaped when it is written: no backslash and no control character.
pub open spec fn unescaped(s: Seq<char>) -> bool {
    forall|i: int|
        0 <= i < s.len() ==> (#[trigger] s[i]) != '\\' && 0x20 <= s[i] as u32 && s[i] as u32 != 0x7f
}

/// Nothing in the sections is escaped when it is written.
pub open spec fn all_unescaped(
    sections: Seq<(Option<Seq<char>>, Seq<(Seq<char>, Seq<char>)>)>,
) -> bool {
    forall|i: int| #![trigger sections[i]]
        0 <= i < sections.len() ==> {
            &&& sections[i].0 is Some ==> unescaped(sections[i].0->0)
            &&& forall|j: int| #![trigger sections[i].1[j]]
                0 <= j < sections[i].1.len() ==> unescaped(sections[i].1[j].0) && unescaped(
                    sections[i].1[j].1,
                )
        }
}

/// An ASCII letter, an ASCII digit or an underscore.
pub open spec fn word_char(c: char) -> bool {
    let n = c as u32;
    ||| 48 <= n <= 57
    ||| 65 <= n <= 90
    ||| 97 <= n <= 122
    ||| n == 95
}

/// One or more letters, digits and underscores.
pub open spec fn word(s: Seq<char>) -> bool {
    s.len() > 0 && forall|i: int| 0 <= i < s.len() ==> word_char(#[trigger] s[i])
}

/// A letter, a digit, or one of `_ . , : - +`.
pub open spec fn plain_char(c: char) -> bool {
    ||| word_char(c)
    ||| c == '.'
    ||| c == ','
    ||| c == ':'
    ||| c == '-'
    ||| c == '+'
}

/// One or more letters, digits and signs of [`plain_char`].
pub open spec fn plain(s: Seq<char>) -> bool {
    s.len() > 0 && forall|i: int| 0 <= i < s.len() ==> plain_char(#[trigger] s[i])
}

/// Sections as a simple file has them: nothing before the first header, words as the names and
/// the keys, plain text as the values.
pub open spec fn simple(
    sections: Seq<(Option<Seq<char>>, Seq<(Seq<char>, Seq<char>)>)>,
) -> bool {
    &&& sections.len() > 0
    &&& sections[0].0 is None
    &&& sections[0].1.len() == 0
    &&& forall|i: int| #![trigger sections[i]]
        1 <= i < sections.len() ==> {
            &&& sections[i].0 is Some
            &&& word(sections[i].0->0)
            &&& forall|j: int| #![trigger sections[i].1[j]]
                0 <= j < sections[i].1.len() ==> word(sections[i].1[j].0) && plain(
                    sections[i].1[j].1,
                )
        }
}

/// Calls `ini::Ini::new`: a file with nothing but the empty section before the first header.
#[verifier::external_body]
pub(crate) fn ini_new() -> (file: ini::Ini)
    ensures
        ini_sections(file) == seq![
            (None::<Seq<char>>, Seq::<(Seq<char>, Seq<char>)>::empty()),
        ],
{
    ini::Ini::new()
}

/// Calls `ini::Ini::with_section` and `set` on what it returns: the key gets the one value in the
/// first section with that name, and the section is added where there is none.
#[verifier::external_body]
pub(crate) fn ini_set(file: &mut ini::Ini, section: &str, key: &str, value: &str)
    ensures
        ini_sections(*final(file)) == with_pair(ini_sections(*old(file)), section@, key@, value@),
{
    file.with_section(Some(section)).set(key, value);
}

/// Calls `ini::Ini::section`: the first section with that name.
#[verifier::external_body]
pub(crate) fn ini_section<'a>(file: &'a ini::Ini, name: &str) -> (r: Option<&'a ini::Properties>)
    ensures
        r is Some <==> first_section(ini_sections(*file), name@) is Some,
        r is Some ==> ini_properties(*r->0) == first_section(ini_sections(*file), name@)->0,
{
    file.section(Some(name))
}

/// Calls `ini::Properties::get`: the value of the first pair with that key.
#[verifier::external_body]
pub(crate) fn ini_get<'a>(properties: &'a ini::Properties, key: &str) -> (r: Option<&'a str>)
    ensures
        r is Some <==> first_value(ini_properties(*properties), key@) is Some,
        r is Some ==> r->0@ == first_value(ini_properties(*properties), key@)->0,
{
    properties.get(key)
}

/// Calls `ini::Ini::load_from_str`: what it returns is a function of the text, and the text that
/// lays out the sections of a simple file is read as those sections.
#[verifier::external_body]
pub(crate) fn ini_load(text: &str) -> (r: Result<ini::Ini, SyntaxError>)
    ensures
        r is Ok <==> ini_loaded(text@) is Ok,
        r is Ok ==> ini_loaded(text@)->Ok_0 == ini_sections(r->Ok_0),
        r is Err ==> ini_loaded(text@)->Err_0 == r->Err_0@,
        forall|sections: Seq<(Option<Seq<char>>, Seq<(Seq<char>, Seq<char>)>)>|
            simple(sections) && text@ == #[trigger] layout(sections) ==> r is Ok && ini_sections(
                r->Ok_0,
            ) == sections,
{
    match ini::Ini::load_from_str(text) {
        Ok(file) => Ok(file),
        Err(e) => Err(SyntaxError { line: e.line, col: e.col, msg: e.msg.into_owned() }),
    }
}

/// Calls `ini::Ini::write_to_opt` with a buffer for the writer, the default options and a line feed
/// at the end of each line: where nothing is escaped, the sections are laid out as [`layout`] says.
#[verifier::external_body]
pub(crate) fn ini_text(file: &ini::Ini) -> (text: String)
    requires
        all_unescaped(ini_sections(*file)),
    ensures
        text@ == layout(ini_sections(*file)),
{
    let mut buffer: Vec<u8> = Vec::new();
    let line_separator = ini::LineSeparator::CR;
    let options = ini::WriteOption { line_separator, ..Default::default() };
    file.write_to_opt(&mut buffer, options).unwrap();
    String::from_utf8(buffer).unwrap()
}

/// A key's value is that of the first pair with the key.
pub proof fn value_is_that_of_the_first_pair(
    properties: Seq<(Seq<char>, Seq<char>)>,
    key: Seq<char>,
    k: int,
)
    requires
        0 <= k <= properties.len(),
        forall|i: int| 0 <= i < k ==> (#[trigger] properties[i]).0 != key,
        k < properties.len() ==> properties[k].0 == key,
    ensures
        k < properties.len() ==> first_value(properties, key) == Some(properties[k].1),
        k == properties.len() ==> first_value(properties, key) is None,
    decreases k,
{
    if k > 0 {
        let rest = properties.drop_first();
        assert(properties[0].0 != key);
        assert forall|i: int| 0 <= i < k - 1 implies (#[trigger] rest[i]).0 != key by {
            assert(rest[i] == properties[i + 1]);
        }
        value_is_that_of_the_first_pair(rest, key, k - 1);
    }
}

/// A name's pairs are those of the first section with the name.
pub proof fn pairs_are_those_of_the_first_section(
    sections: Seq<(Option<Seq<char>>, Seq<(Seq<char>, Seq<char>)>)>,
    name: Seq<char>,
    k: int,
)
    requires
        0 <= k <= sections.len(),
        forall|i: int| 0 <= i < k ==> (#[trigger] sections[i]).0 != Some(name),
        k < sections.len() ==> sections[k].0 == Some(name),
    ensures
        k < sections.len() ==> first_section(sections, name) == Some(sections[k].1),
        k == sections.len() ==> first_section(sections, name) is None,
    decreases k,
{
    if k > 0 {
        let rest = sections.drop_first();
        assert(sections[0].0 != Some(name));
        assert forall|i: int| 0 <= i < k - 1 implies (#[trigger] rest[i]).0 != Some(name) by {
            assert(rest[i] == sections[i + 1]);
        }
        pairs_are_those_of_the_first_section(rest, name, k - 1);
    }
}

} // verus!
