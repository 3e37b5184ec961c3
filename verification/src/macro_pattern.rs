//! Structural patterns over scanned objects: a macro matcher names a
//! pattern and matches an object when its shape fits.
use vstd::prelude::*;
use crate::object_block::{
    ObjectDelimiter, SchemaBlockObject, SymbolClass, symbol_class_spec, symbol_text_spec,
};
use crate::text::string_of;

verus! {

#[derive(Clone, Debug, PartialEq, Eq)]
pub struct SchemaMacroMatcher {
    name: String,
    pattern: SchemaMacroPattern,
}

#[derive(Debug, PartialEq, Eq)]
pub enum SchemaMacroPattern {
    /// Any object.
    Any,
    /// Any symbol atom.
    Symbol,
    /// A symbol atom of the given class.
    SymbolClass(SymbolClass),
    /// A block with the given delimiter, whatever it holds.
    BlockWithAnyObjects { delimiter: ObjectDelimiter },
    /// A block with the given delimiter whose objects match the patterns
    /// one for one.
    Block { delimiter: ObjectDelimiter, objects: Vec<SchemaMacroPattern> },
}

/// The mathematical value of a pattern.
pub enum PatternModel {
    Any,
    Symbol,
    SymbolClass(SymbolClass),
    BlockWithAnyObjects(ObjectDelimiter),
    Block(ObjectDelimiter, Seq<PatternModel>),
}

pub open spec fn pattern_models(ps: Seq<SchemaMacroPattern>) -> Seq<PatternModel> {
    Seq::new(ps.len(), |i: int| ps[i].model())
}

/// Whether pattern `p` matches object `o`.
pub open spec fn pattern_matches(p: PatternModel, o: SchemaBlockObject) -> bool
    decreases p,
{
    match p {
        PatternModel::Any => true,
        PatternModel::Symbol => o.qualifies_as_symbol_spec(),
        PatternModel::SymbolClass(class) => o matches SchemaBlockObject::Atom(a)
            && symbol_text_spec(a.text_view()) && symbol_class_spec(a.text_view()) == class,
        PatternModel::BlockWithAnyObjects(delimiter) => o matches SchemaBlockObject::Block(b)
            && b.delimiter_of() == delimiter,
        PatternModel::Block(delimiter, objects) => match o {
            SchemaBlockObject::Block(b) => b.delimiter_of() == delimiter && b.children().len()
                == objects.len() && forall|i: int|
                0 <= i < objects.len() ==> pattern_matches(#[trigger] objects[i], b.children()[i]),
            SchemaBlockObject::Atom(_) => false,
        },
    }
}

impl SchemaMacroPattern {
    pub open spec fn model(&self) -> PatternModel
        decreases self,
    {
        match self {
            SchemaMacroPattern::Any => PatternModel::Any,
            SchemaMacroPattern::Symbol => PatternModel::Symbol,
            SchemaMacroPattern::SymbolClass(class) => PatternModel::SymbolClass(*class),
            SchemaMacroPattern::BlockWithAnyObjects { delimiter } => PatternModel::BlockWithAnyObjects(
                *delimiter,
            ),
            SchemaMacroPattern::Block { delimiter, objects } => PatternModel::Block(
                *delimiter,
                Seq::new(
                    objects@.len(),
                    |i: int|
                        if 0 <= i < objects@.len() {
                            objects@[i].model()
                        } else {
                            PatternModel::Any
                        },
                ),
            ),
        }
    }

    /// A copy of this pattern.
    pub fn duplicate(&self) -> (r: SchemaMacroPattern)
        ensures
            r.model() == self.model(),
        decreases self,
    {
        match self {
            SchemaMacroPattern::Any => SchemaMacroPattern::Any,
            SchemaMacroPattern::Symbol => SchemaMacroPattern::Symbol,
            SchemaMacroPattern::SymbolClass(class) => SchemaMacroPattern::SymbolClass(*class),
            SchemaMacroPattern::BlockWithAnyObjects { delimiter } => {
                SchemaMacroPattern::BlockWithAnyObjects { delimiter: *delimiter }
            },
            SchemaMacroPattern::Block { delimiter, objects } => {
                let mut copies: Vec<SchemaMacroPattern> = Vec::new();
                let mut i: usize = 0;
                while i < objects.len()
                    invariant
                        *self == (SchemaMacroPattern::Block { delimiter: *delimiter, objects: *objects }),
                        0 <= i <= objects@.len(),
                        copies@.len() == i,
                        forall|k: int|
                            0 <= k < i ==> #[trigger] copies@[k].model() == objects@[k].model(),
                    decreases objects@.len() - i,
                {
                    proof {
                        assert(decreases_to!(*self => (*self)->Block_objects));
                        assert(decreases_to!(*objects => objects[i as int]));
                    }
                    let copy = objects[i].duplicate();
                    copies.push(copy);
                    i = i + 1;
                }
                let r = SchemaMacroPattern::Block { delimiter: *delimiter, objects: copies };
                assert forall|k: int| 0 <= k < objects@.len() implies (r.model()->Block_1)[k]
                    == (self.model()->Block_1)[k] by {
                    assert(copies@[k].model() == objects@[k].model());
                }
                assert(r.model()->Block_1 =~= self.model()->Block_1);
                r
            },
        }
    }

    pub fn any() -> (r: Self)
        ensures
            r == SchemaMacroPattern::Any,
    {
        SchemaMacroPattern::Any
    }

    pub fn symbol() -> (r: Self)
        ensures
            r == SchemaMacroPattern::Symbol,
    {
        SchemaMacroPattern::Symbol
    }

    pub fn symbol_class(class: SymbolClass) -> (r: Self)
        ensures
            r == SchemaMacroPattern::SymbolClass(class),
    {
        SchemaMacroPattern::SymbolClass(class)
    }

    pub fn pascal_symbol() -> (r: Self)
        ensures
            r == SchemaMacroPattern::SymbolClass(SymbolClass::PascalCase),
    {
        Self::symbol_class(SymbolClass::PascalCase)
    }

    pub fn camel_symbol() -> (r: Self)
        ensures
            r == SchemaMacroPattern::SymbolClass(SymbolClass::CamelCase),
    {
        Self::symbol_class(SymbolClass::CamelCase)
    }

    pub fn kebab_symbol() -> (r: Self)
        ensures
            r == SchemaMacroPattern::SymbolClass(SymbolClass::KebabCase),
    {
        Self::symbol_class(SymbolClass::KebabCase)
    }

    pub fn parenthesized(objects: Vec<Self>) -> (r: Self)
        ensures
            r.model() == PatternModel::Block(ObjectDelimiter::Parentheses, pattern_models(objects@)),
    {
        Self::block(ObjectDelimiter::Parentheses, objects)
    }

    pub fn square_bracketed(objects: Vec<Self>) -> (r: Self)
        ensures
            r.model() == PatternModel::Block(
                ObjectDelimiter::SquareBrackets,
                pattern_models(objects@),
            ),
    {
        Self::block(ObjectDelimiter::SquareBrackets, objects)
    }

    pub fn curly_braced(objects: Vec<Self>) -> (r: Self)
        ensures
            r.model() == PatternModel::Block(ObjectDelimiter::CurlyBraces, pattern_models(objects@)),
    {
        Self::block(ObjectDelimiter::CurlyBraces, objects)
    }

    pub fn block(delimiter: ObjectDelimiter, objects: Vec<Self>) -> (r: Self)
        ensures
            r.model() == PatternModel::Block(delimiter, pattern_models(objects@)),
    {
        let r = SchemaMacroPattern::Block { delimiter, objects };
        assert(r.model()->Block_1 =~= pattern_models(objects@));
        r
    }

    pub fn parenthesized_any() -> (r: Self)
        ensures
            r == (SchemaMacroPattern::BlockWithAnyObjects {
                delimiter: ObjectDelimiter::Parentheses,
            }),
    {
        Self::block_with_any_objects(ObjectDelimiter::Parentheses)
    }

    pub fn square_bracketed_any() -> (r: Self)
        ensures
            r == (SchemaMacroPattern::BlockWithAnyObjects {
                delimiter: ObjectDelimiter::SquareBrackets,
            }),
    {
        Self::block_with_any_objects(ObjectDelimiter::SquareBrackets)
    }

    pub fn curly_braced_any() -> (r: Self)
        ensures
            r == (SchemaMacroPattern::BlockWithAnyObjects {
                delimiter: ObjectDelimiter::CurlyBraces,
            }),
    {
        Self::block_with_any_objects(ObjectDelimiter::CurlyBraces)
    }

    pub fn block_with_any_objects(delimiter: ObjectDelimiter) -> (r: Self)
        ensures
            r == (SchemaMacroPattern::BlockWithAnyObjects { delimiter }),
    {
        SchemaMacroPattern::BlockWithAnyObjects { delimiter }
    }

    /// Whether this pattern matches the object.
    pub fn matches(&self, object: &SchemaBlockObject) -> (r: bool)
        ensures
            r == pattern_matches(self.model(), *object),
        decreases self,
    {
        match self {
            SchemaMacroPattern::Any => true,
            SchemaMacroPattern::Symbol => object.qualifies_as_symbol(),
            SchemaMacroPattern::SymbolClass(expected) => match object.qualified_symbol() {
                Some(symbol) => symbol.class() == *expected,
                None => false,
            },
            SchemaMacroPattern::BlockWithAnyObjects { delimiter } => match object.as_block() {
                Some(block) => block.delimiter() == *delimiter,
                None => false,
            },
            SchemaMacroPattern::Block { delimiter, objects } => {
                let block = match object.as_block() {
                    Some(block) => block,
                    None => return false,
                };
                if block.delimiter() != *delimiter || block.object_count() != objects.len() {
                    return false;
                }
                let children = block.objects();
                let mut i: usize = 0;
                while i < objects.len()
                    invariant
                        *self == (SchemaMacroPattern::Block { delimiter: *delimiter, objects: *objects }),
                        *object == SchemaBlockObject::Block(*block),
                        block.delimiter_of() == *delimiter,
                        children@ == block.children(),
                        children@.len() == objects@.len(),
                        0 <= i <= objects@.len(),
                        forall|k: int|
                            0 <= k < i ==> pattern_matches(
                                #[trigger] self.model()->Block_1[k],
                                children@[k],
                            ),
                    decreases objects@.len() - i,
                {
                    proof {
                        assert(decreases_to!(*self => *objects));
                        assert(decreases_to!(*objects => objects[i as int]));
                        assert(self.model()->Block_1[i as int] == objects@[i as int].model());
                    }
                    if !objects[i].matches(&children[i]) {
                        assert(!pattern_matches(self.model()->Block_1[i as int], block.children()[i as int]));
                        assert(!pattern_matches(self.model(), *object));
                        return false;
                    }
                    i = i + 1;
                }
                true
            },
        }
    }
}

impl Clone for SchemaMacroPattern {
    fn clone(&self) -> (r: SchemaMacroPattern)
        ensures
            r.model() == self.model(),
    {
        self.duplicate()
    }
}

impl SchemaMacroMatcher {
    pub closed spec fn name_view(&self) -> Seq<char> {
        self.name@
    }

    pub closed spec fn pattern_of(&self) -> SchemaMacroPattern {
        self.pattern
    }

    pub fn new(name: &str, pattern: SchemaMacroPattern) -> (r: Self)
        ensures
            r.name_view() == name@,
            r.pattern_of() == pattern,
    {
        SchemaMacroMatcher { name: string_of(name), pattern }
    }

    pub fn name(&self) -> (r: &str)
        ensures
            r@ == self.name_view(),
    {
        self.name.as_str()
    }

    pub fn pattern(&self) -> (r: &SchemaMacroPattern)
        ensures
            *r == self.pattern_of(),
    {
        &self.pattern
    }

    /// Whether the matcher's pattern matches the object.
    pub fn matches(&self, object: &SchemaBlockObject) -> (r: bool)
        ensures
            r == pattern_matches(self.pattern_of().model(), *object),
    {
        self.pattern.matches(object)
    }
}

} // verus!
