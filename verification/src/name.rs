//! Validated names of the schema model: PascalCase schema names, derived
//! Rust field names, module names and module-qualified names.
use vstd::prelude::*;
use crate::error::Error;
use crate::text::{chars_of, push_char, str_equal, string_of};

verus! {

pub open spec fn is_upper_char(c: char) -> bool {
    'A' <= c <= 'Z'
}

pub open spec fn is_lower_char(c: char) -> bool {
    'a' <= c <= 'z'
}

pub open spec fn is_digit_char(c: char) -> bool {
    '0' <= c <= '9'
}

pub open spec fn is_alpha_char(c: char) -> bool {
    is_upper_char(c) || is_lower_char(c)
}

pub open spec fn is_alnum_char(c: char) -> bool {
    is_alpha_char(c) || is_digit_char(c)
}

/// Whether some character of `t` is an ASCII letter.
pub open spec fn has_alpha(t: Seq<char>) -> bool {
    exists|i: int| 0 <= i < t.len() && is_alpha_char(#[trigger] t[i])
}

/// A PascalCase schema name: an ASCII uppercase letter, then ASCII letters
/// and digits, with at least one letter.
pub open spec fn pascal_name_spec(t: Seq<char>) -> bool {
    &&& t.len() > 0
    &&& is_upper_char(t[0])
    &&& forall|i: int| 1 <= i < t.len() ==> is_alnum_char(#[trigger] t[i])
    &&& has_alpha(t)
}

/// A field name: an ASCII lowercase letter, then ASCII letters, digits
/// and underscores, with at least one letter.
pub open spec fn field_name_spec(t: Seq<char>) -> bool {
    &&& t.len() > 0
    &&& is_lower_char(t[0])
    &&& forall|i: int| 1 <= i < t.len() ==> is_alnum_char(#[trigger] t[i]) || t[i] == '_'
    &&& has_alpha(t)
}

/// A module name: an ASCII lowercase letter, then lowercase letters,
/// digits and underscores, with at least one letter.
pub open spec fn module_name_spec(t: Seq<char>) -> bool {
    &&& t.len() > 0
    &&& is_lower_char(t[0])
    &&& forall|i: int|
        1 <= i < t.len() ==> is_lower_char(#[trigger] t[i]) || is_digit_char(t[i]) || t[i] == '_'
    &&& has_alpha(t)
}

/// Which rule a name is checked against.
pub enum NameRule {
    Pascal,
    Field,
    Module,
}

pub open spec fn follows_rule(rule: NameRule, t: Seq<char>) -> bool {
    match rule {
        NameRule::Pascal => pascal_name_spec(t),
        NameRule::Field => field_name_spec(t),
        NameRule::Module => module_name_spec(t),
    }
}


pub open spec fn rest_char_ok(rule: NameRule, c: char) -> bool {
    match rule {
        NameRule::Pascal => is_alnum_char(c),
        NameRule::Field => is_alnum_char(c) || c == '_',
        NameRule::Module => is_lower_char(c) || is_digit_char(c) || c == '_',
    }
}

fn is_alpha(c: char) -> (r: bool)
    ensures
        r == is_alpha_char(c),
{
    ('A' <= c && c <= 'Z') || ('a' <= c && c <= 'z')
}

fn check_name(value: &str, rule: NameRule) -> (r: bool)
    ensures
        r == follows_rule(rule, value@),
{
    let chars = chars_of(value);
    if chars.len() == 0 {
        return false;
    }
    let first = chars[0];
    let first_ok = match rule {
        NameRule::Pascal => 'A' <= first && first <= 'Z',
        _ => 'a' <= first && first <= 'z',
    };
    if !first_ok {
        return false;
    }
    let mut i: usize = 1;
    while i < chars.len()
        invariant
            chars@ == value@,
            1 <= i <= chars@.len(),
            forall|k: int| 1 <= k < i ==> rest_char_ok(rule, #[trigger] chars@[k]),
        decreases chars@.len() - i,
    {
        let c = chars[i];
        let ok = match rule {
            NameRule::Pascal => ('A' <= c && c <= 'Z') || ('a' <= c && c <= 'z') || ('0' <= c && c
                <= '9'),
            NameRule::Field => ('A' <= c && c <= 'Z') || ('a' <= c && c <= 'z') || ('0' <= c && c
                <= '9') || c == '_',
            NameRule::Module => ('a' <= c && c <= 'z') || ('0' <= c && c <= '9') || c == '_',
        };
        if !ok {
            return false;
        }
        i = i + 1;
    }
    let mut j: usize = 0;
    let mut found = false;
    while j < chars.len()
        invariant
            chars@ == value@,
            0 <= j <= chars@.len(),
            found == exists|k: int| 0 <= k < j && is_alpha_char(#[trigger] chars@[k]),
        decreases chars@.len() - j,
    {
        if is_alpha(chars[j]) {
            found = true;
        }
        j = j + 1;
    }
    found
}

/// PascalCase schema name used for declarations and variants.
#[derive(Clone, Debug, PartialEq, Eq, Hash, PartialOrd, Ord)]
pub struct Name(String);

impl Name {
    pub closed spec fn text(&self) -> Seq<char> {
        self.0@
    }

    /// A name, when `value` is PascalCase.
    pub fn new(value: &str) -> (r: Result<Self, Error>)
        ensures
            pascal_name_spec(value@) ==> (r matches Ok(n) && n.text() == value@),
            !pascal_name_spec(value@) ==> (r matches Err(Error::InvalidName { name })
                && name@ == value@),
    {
        if check_name(value, NameRule::Pascal) {
            Ok(Name(string_of(value)))
        } else {
            Err(Error::InvalidName { name: string_of(value) })
        }
    }

    pub fn as_str(&self) -> (r: &str)
        ensures
            r@ == self.text(),
    {
        self.0.as_str()
    }

    /// A copy of this name.
    pub fn duplicate(&self) -> (r: Name)
        ensures
            r.text() == self.text(),
    {
        Name(self.0.clone())
    }
}

/// The snake-case field name derived from a schema name: each ASCII
/// uppercase letter becomes its lowercase, preceded by `_` unless it is
/// the first character; `-` becomes `_`; everything else is kept.
pub open spec fn snake_case_spec(t: Seq<char>) -> Seq<char>
    decreases t.len(),
{
    if t.len() == 0 {
        Seq::empty()
    } else {
        let prev = snake_case_spec(t.drop_last());
        let c = t.last();
        if is_upper_char(c) {
            if t.len() > 1 {
                prev.push('_').push(lower_of(c))
            } else {
                prev.push(lower_of(c))
            }
        } else if c == '-' {
            prev.push('_')
        } else {
            prev.push(c)
        }
    }
}

/// The ASCII lowercase of an uppercase letter.
pub open spec fn lower_of(c: char) -> char {
    (((c as u32) as u8) + 32) as char
}

pub(crate) fn lower_char(c: char) -> (r: char)
    requires
        is_upper_char(c),
    ensures
        r == lower_of(c),
{
    (((c as u32) as u8) + 32) as char
}

/// The snake-case conversion of `text`.
pub fn snake_case(text: &str) -> (r: String)
    ensures
        r@ == snake_case_spec(text@),
{
    let chars = chars_of(text);
    let mut out = String::new();
    let mut i: usize = 0;
    while i < chars.len()
        invariant
            chars@ == text@,
            0 <= i <= chars@.len(),
            out@ == snake_case_spec(chars@.take(i as int)),
        decreases chars@.len() - i,
    {
        let c = chars[i];
        let ghost prefix = chars@.take(i as int + 1);
        assert(prefix.drop_last() =~= chars@.take(i as int));
        assert(prefix.last() == c);
        if 'A' <= c && c <= 'Z' {
            if i > 0 {
                push_char(&mut out, '_');
            }
            push_char(&mut out, lower_char(c));
        } else if c == '-' {
            push_char(&mut out, '_');
        } else {
            push_char(&mut out, c);
        }
        i = i + 1;
    }
    assert(chars@.take(chars@.len() as int) =~= chars@);
    out
}

/// Rust-facing field name derived from a schema field's type expression.
#[derive(Clone, Debug, PartialEq, Eq, Hash, PartialOrd, Ord)]
pub struct FieldName(String);

impl FieldName {
    pub closed spec fn text(&self) -> Seq<char> {
        self.0@
    }

    /// A field name, when `value` follows the field-name rule.
    pub fn new(value: &str) -> (r: Result<Self, Error>)
        ensures
            field_name_spec(value@) ==> (r matches Ok(n) && n.text() == value@),
            !field_name_spec(value@) ==> (r matches Err(Error::InvalidFieldName { name })
                && name@ == value@),
    {
        if check_name(value, NameRule::Field) {
            Ok(FieldName(string_of(value)))
        } else {
            Err(Error::InvalidFieldName { name: string_of(value) })
        }
    }

    /// A copy of this field name.
    pub fn duplicate(&self) -> (r: FieldName)
        ensures
            r.text() == self.text(),
    {
        FieldName(self.0.clone())
    }

    /// The field name derived from a schema name.
    pub fn from_schema_name(name: &Name) -> (r: FieldName)
        ensures
            r.text() == snake_case_spec(name.text()),
    {
        FieldName(snake_case(name.as_str()))
    }

    /// The field name of a primitive type, given its lowercase text.
    pub fn from_primitive(text: &str) -> (r: FieldName)
        ensures
            r.text() == text@,
    {
        FieldName(string_of(text))
    }

    pub fn as_str(&self) -> (r: &str)
        ensures
            r@ == self.text(),
    {
        self.0.as_str()
    }
}

/// Rust module name generated from one `.schema` file.
#[derive(Clone, Debug, PartialEq, Eq, Hash, PartialOrd, Ord)]
pub struct ModuleName(String);

/// What `std::path::Path::file_stem` gives for a path, as text.
pub uninterp spec fn path_file_stem(path: Seq<char>) -> Option<Seq<char>>;

/// The file stem of a path: `std::path::Path::file_stem` on `path`,
/// taken as text. Its result is named, not stated: it is the final
/// component without its last extension.
#[verifier::external_body]
fn file_stem_text(path: &str) -> (r: Option<String>)
    ensures
        match path_file_stem(path@) {
            Some(stem) => r matches Some(s) && s@ == stem,
            None => r is None,
        },
{
    std::path::Path::new(path).file_stem().and_then(|stem| stem.to_str()).map(|stem| stem.to_owned())
}

/// `t` with every `-` replaced by `_`.
pub open spec fn dashes_to_underscores(t: Seq<char>) -> Seq<char> {
    Seq::new(t.len(), |i: int| if t[i] == '-' { '_' } else { t[i] })
}

fn replace_dashes(text: &str) -> (r: String)
    ensures
        r@ == dashes_to_underscores(text@),
{
    let chars = chars_of(text);
    let mut out = String::new();
    let mut i: usize = 0;
    while i < chars.len()
        invariant
            chars@ == text@,
            0 <= i <= chars@.len(),
            out@ == dashes_to_underscores(chars@.take(i as int)),
        decreases chars@.len() - i,
    {
        if chars[i] == '-' {
            push_char(&mut out, '_');
        } else {
            push_char(&mut out, chars[i]);
        }
        i = i + 1;
        assert(out@ =~= dashes_to_underscores(chars@.take(i as int)));
    }
    assert(chars@.take(chars@.len() as int) =~= chars@);
    out
}

impl ModuleName {
    pub closed spec fn text(&self) -> Seq<char> {
        self.0@
    }

    /// A module name, when `value` follows the module-name rule.
    pub fn new(value: &str) -> (r: Result<Self, Error>)
        ensures
            module_name_spec(value@) ==> (r matches Ok(n) && n.text() == value@),
            !module_name_spec(value@) ==> (r matches Err(Error::InvalidModuleName { name })
                && name@ == value@),
    {
        if check_name(value, NameRule::Module) {
            Ok(ModuleName(string_of(value)))
        } else {
            Err(Error::InvalidModuleName { name: string_of(value) })
        }
    }

    /// The module name of a schema file: its file stem with `-` turned
    /// into `_`, checked as a module name.
    pub fn from_schema_path(path: &str) -> (r: Result<Self, Error>)
        ensures
            match path_file_stem(path@) {
                None => r matches Err(Error::InvalidModuleName { name }) && name@ == path@,
                Some(stem) => {
                    let candidate = dashes_to_underscores(stem);
                    &&& module_name_spec(candidate) ==> (r matches Ok(n) && n.text() == candidate)
                    &&& !module_name_spec(candidate) ==> (r matches Err(
                        Error::InvalidModuleName { name },
                    ) && name@ == candidate)
                },
            },
    {
        match file_stem_text(path) {
            None => Err(Error::InvalidModuleName { name: string_of(path) }),
            Some(stem) => {
                let candidate = replace_dashes(stem.as_str());
                Self::new(candidate.as_str())
            },
        }
    }

    pub fn as_str(&self) -> (r: &str)
        ensures
            r@ == self.text(),
    {
        self.0.as_str()
    }
}

/// Type name qualified by the schema module that owns it.
#[derive(Clone, Debug, PartialEq, Eq, Hash, PartialOrd, Ord)]
pub struct QualifiedName {
    module: ModuleName,
    name: Name,
}

impl QualifiedName {
    pub closed spec fn module_text(&self) -> Seq<char> {
        self.module.text()
    }

    pub closed spec fn name_text(&self) -> Seq<char> {
        self.name.text()
    }

    pub fn new(module: ModuleName, name: Name) -> (r: Self)
        ensures
            r.module_text() == module.text(),
            r.name_text() == name.text(),
    {
        QualifiedName { module, name }
    }

    pub fn module(&self) -> (r: &ModuleName)
        ensures
            r.text() == self.module_text(),
    {
        &self.module
    }

    pub fn name(&self) -> (r: &Name)
        ensures
            r.text() == self.name_text(),
    {
        &self.name
    }
}

/// The texts of a run of names.
pub open spec fn name_texts(names: Seq<Name>) -> Seq<Seq<char>> {
    Seq::new(names.len(), |i: int| names[i].text())
}

/// The first position whose text already occurred before it, if any.
pub open spec fn first_duplicate(texts: Seq<Seq<char>>) -> Option<int>
    decreases texts.len(),
{
    if texts.len() == 0 {
        None
    } else {
        match first_duplicate(texts.drop_last()) {
            Some(j) => Some(j),
            None => if texts.drop_last().contains(texts.last()) {
                Some(texts.len() - 1)
            } else {
                None
            },
        }
    }
}

pub proof fn lemma_first_duplicate_range(texts: Seq<Seq<char>>)
    ensures
        first_duplicate(texts) matches Some(j) ==> 0 <= j < texts.len(),
    decreases texts.len(),
{
    if texts.len() > 0 {
        lemma_first_duplicate_range(texts.drop_last());
    }
}

/// No text occurs twice.
pub open spec fn all_distinct(texts: Seq<Seq<char>>) -> bool {
    forall|i: int, j: int| 0 <= i < j < texts.len() ==> texts[i] != texts[j]
}

/// A run has no first duplicate exactly when its texts are all distinct.
pub proof fn lemma_first_duplicate_none(texts: Seq<Seq<char>>)
    ensures
        (first_duplicate(texts) is None) == all_distinct(texts),
    decreases texts.len(),
{
    if texts.len() > 0 {
        let prefix = texts.drop_last();
        lemma_first_duplicate_none(prefix);
        if all_distinct(texts) {
            assert(all_distinct(prefix)) by {
                assert forall|i: int, j: int| 0 <= i < j < prefix.len() implies prefix[i]
                    != prefix[j] by {
                    assert(texts[i] != texts[j]);
                }
            }
            assert(!prefix.contains(texts.last())) by {
                if prefix.contains(texts.last()) {
                    let k = choose|k: int| 0 <= k < prefix.len() && prefix[k] == texts.last();
                    assert(texts[k] == texts[texts.len() - 1]);
                }
            }
        } else if first_duplicate(texts) is None {
            assert(all_distinct(prefix));
            assert(!prefix.contains(texts.last()));
            assert forall|i: int, j: int| 0 <= i < j < texts.len() implies texts[i] != texts[j] by {
                if j == texts.len() - 1 {
                    if texts[i] == texts[j] {
                        assert(prefix[i] == texts.last());
                    }
                } else {
                    assert(prefix[i] != prefix[j]);
                }
            }
        }
    }
}

proof fn lemma_first_duplicate_step(texts: Seq<Seq<char>>, j: int)
    requires
        0 <= j < texts.len(),
        first_duplicate(texts.take(j)) is None,
    ensures
        texts.take(j + 1).drop_last() == texts.take(j),
        texts.take(j + 1).last() == texts[j],
{
    assert(texts.take(j + 1).drop_last() =~= texts.take(j));
}

/// Once a prefix has a first duplicate, every longer run has the same one.
pub proof fn lemma_first_duplicate_prefix(texts: Seq<Seq<char>>, n: int)
    requires
        0 <= n <= texts.len(),
        first_duplicate(texts.take(n)) is Some,
    ensures
        first_duplicate(texts) == first_duplicate(texts.take(n)),
    decreases texts.len() - n,
{
    if n < texts.len() {
        assert(texts.take(n + 1).drop_last() =~= texts.take(n));
        lemma_first_duplicate_prefix(texts, n + 1);
    } else {
        assert(texts.take(n) =~= texts);
    }
}

/// The position of the first name that repeats an earlier one.
pub fn first_duplicate_name(names: &[Name]) -> (r: Option<usize>)
    ensures
        r matches Some(j) ==> j < names@.len(),
        match first_duplicate(name_texts(names@)) {
            Some(j) => r == Some(j as usize) && 0 <= j < names@.len(),
            None => r is None,
        },
{
    let ghost texts = name_texts(names@);
    let mut j: usize = 0;
    while j < names.len()
        invariant
            texts == name_texts(names@),
            0 <= j <= names@.len(),
            first_duplicate(texts.take(j as int)) is None,
        decreases names@.len() - j,
    {
        proof {
            lemma_first_duplicate_step(texts, j as int);
        }
        let mut i: usize = 0;
        let mut seen = false;
        while i < j
            invariant
                texts == name_texts(names@),
                0 <= i <= j < names@.len(),
                seen == exists|k: int| 0 <= k < i && texts[k] == texts[j as int],
            decreases j - i,
        {
            let same = str_equal(names[i].as_str(), names[j].as_str());
            proof {
                assert(texts[i as int] == names@[i as int].text());
                assert(texts[j as int] == names@[j as int].text());
            }
            if same {
                seen = true;
            }
            i = i + 1;
        }
        proof {
            let prefix = texts.take(j as int);
            if seen {
                let k = choose|k: int| 0 <= k < j && texts[k] == texts[j as int];
                assert(prefix[k] == texts[j as int]);
                assert(prefix.contains(texts[j as int]));
            } else {
                assert(!prefix.contains(texts[j as int])) by {
                    if prefix.contains(texts[j as int]) {
                        let k = choose|k: int| 0 <= k < prefix.len() && prefix[k] == texts[j as int];
                        assert(texts[k] == texts[j as int]);
                    }
                }
            }
        }
        if seen {
            proof {
                lemma_first_duplicate_prefix(texts, j as int + 1);
                lemma_first_duplicate_range(texts);
            }
            return Some(j);
        }
        j = j + 1;
    }
    proof {
        assert(texts.take(j as int) =~= texts);
    }
    None
}

} // verus!
