//! Prepositional phrases: a content phrase closed by `ta`, `na`, `ki`, `lo`, `lu` or `sa`.
use vstd::prelude::*;
use vstd::string::StringExecFns;

use crate::content::{
    content_step, tree_natural, ContentParseError, ContentTree, ContentTreeParser,
    SpecContentError, SpecTree,
};
use crate::text::str_eq;
use crate::tokens::{SpecTokenWithLocation, Token, TokenWithLocation};
use crate::Natural;

verus! {

/// What a prepositional phrase says of the phrase it belongs to.
#[derive(Debug, Clone, Copy, PartialEq, Eq, Structural)]
pub enum PrepositionType {
    /// `ta`: towards.
    Direction,
    /// `na`: from, because of.
    Origin,
    /// `ki`: using.
    Using,
    /// `lo`: at, in, on.
    Location,
    /// `lu`: the speaker's view of what is said.
    Metacommentary,
    /// `sa`: in the manner of.
    Manner,
}

/// The preposition that a word marks, if any.
pub open spec fn preposition_kind(data: Seq<char>) -> Option<PrepositionType> {
    if data == "ta"@ {
        Some(PrepositionType::Direction)
    } else if data == "na"@ {
        Some(PrepositionType::Origin)
    } else if data == "ki"@ {
        Some(PrepositionType::Using)
    } else if data == "lo"@ {
        Some(PrepositionType::Location)
    } else if data == "lu"@ {
        Some(PrepositionType::Metacommentary)
    } else if data == "sa"@ {
        Some(PrepositionType::Manner)
    } else {
        None
    }
}

/// The particle that marks a preposition.
pub open spec fn preposition_particle(k: PrepositionType) -> Seq<char> {
    match k {
        PrepositionType::Direction => "ta"@,
        PrepositionType::Origin => "na"@,
        PrepositionType::Using => "ki"@,
        PrepositionType::Location => "lo"@,
        PrepositionType::Metacommentary => "lu"@,
        PrepositionType::Manner => "sa"@,
    }
}

impl PrepositionType {
    /// The preposition that a token's text marks, if any.
    pub fn from_token(token: &Token) -> (r: Option<Self>)
        ensures
            r == preposition_kind(token@.content()),
    {
        let data = token.content();
        if str_eq(data, "ta") {
            Some(PrepositionType::Direction)
        } else if str_eq(data, "na") {
            Some(PrepositionType::Origin)
        } else if str_eq(data, "ki") {
            Some(PrepositionType::Using)
        } else if str_eq(data, "lo") {
            Some(PrepositionType::Location)
        } else if str_eq(data, "lu") {
            Some(PrepositionType::Metacommentary)
        } else if str_eq(data, "sa") {
            Some(PrepositionType::Manner)
        } else {
            None
        }
    }

    /// The particle that marks the preposition.
    pub fn particle(&self) -> (r: &'static str)
        ensures
            r@ == preposition_particle(*self),
    {
        match self {
            PrepositionType::Direction => "ta",
            PrepositionType::Origin => "na",
            PrepositionType::Using => "ki",
            PrepositionType::Location => "lo",
            PrepositionType::Metacommentary => "lu",
            PrepositionType::Manner => "sa",
        }
    }
}

/// A prepositional phrase, as values.
pub struct SpecPreposition {
    pub preposition_type: PrepositionType,
    pub content: SpecTree,
}

/// A prepositional phrase: its kind and the finished phrase it marks.
#[derive(Debug)]
pub struct Preposition {
    pub preposition_type: PrepositionType,
    pub content: ContentTree,
}

impl View for Preposition {
    type V = SpecPreposition;

    open spec fn view(&self) -> SpecPreposition {
        SpecPreposition { preposition_type: self.preposition_type, content: self.content@ }
    }
}

impl Clone for Preposition {
    fn clone(&self) -> (r: Self)
        ensures
            r@ == self@,
    {
        Preposition { preposition_type: self.preposition_type, content: self.content.clone() }
    }
}

/// The reading of a prepositional phrase: its phrase, a hyphen, and its particle.
pub open spec fn preposition_natural(p: SpecPreposition) -> Seq<char> {
    tree_natural(p.content) + "-"@ + preposition_particle(p.preposition_type)
}

impl Natural for Preposition {
    open spec fn natural(&self) -> Seq<char> {
        preposition_natural(self@)
    }

    fn as_natural(&self) -> (r: String) {
        let mut r = self.content.as_natural();
        r.append("-");
        r.append(self.preposition_type.particle());
        r
    }
}

/// One step of the preposition parser. A preposition particle closes the phrase read so
/// far into a prepositional phrase, where that phrase is finished, and starts again;
/// any other token goes to the content phrase.
pub open spec fn preposition_step(st: SpecTree, t: SpecTokenWithLocation) -> Result<
    (SpecTree, Option<SpecPreposition>),
    SpecContentError,
> {
    match preposition_kind(t.token.content()) {
        Some(k) => if st.is_valid() {
            Ok((SpecTree::Terminal, Some(SpecPreposition { preposition_type: k, content: st })))
        } else {
            Err(SpecContentError::InvalidTreeStructure(st))
        },
        None => match content_step(st, t) {
            Ok(s2) => Ok((s2, None)),
            Err(e) => Err(e),
        },
    }
}

/// Reads prepositional phrases and the content phrase after them.
#[derive(Debug)]
pub struct PrepositionParser {
    remainder: ContentTreeParser,
}

impl View for PrepositionParser {
    type V = SpecTree;

    closed spec fn view(&self) -> SpecTree {
        self.remainder@
    }
}

impl PrepositionParser {
    /// A parser that has read nothing.
    pub fn new() -> (r: Self)
        ensures
            r@ == SpecTree::Terminal,
    {
        PrepositionParser { remainder: ContentTreeParser::new() }
    }

    /// Ends the content phrase after the prepositions: see `ContentTreeParser::close`.
    pub fn close(self) -> (r: Result<ContentTree, ContentParseError>)
        ensures
            self@.is_valid() ==> (r matches Ok(t) && t@ == self@),
            !self@.is_valid() ==> (r matches Err(e) && e@ == SpecContentError::InvalidTreeStructure(
                self@,
            )),
    {
        self.remainder.close()
    }

    /// Reads one token: see `preposition_step`. On an error nothing changes.
    pub fn feed_one(&mut self, token: TokenWithLocation) -> (r: Result<
        Option<Preposition>,
        ContentParseError,
    >)
        ensures
            preposition_step(old(self)@, token@) matches Ok((s, p)) ==> (r matches Ok(q)
                && final(self)@ == s && (p matches Some(pv) ==> (q matches Some(qv) && qv@ == pv))
                && (p is None ==> q is None)),
            preposition_step(old(self)@, token@) matches Err(e) ==> (r matches Err(x) && x@ == e
                && final(self)@ == old(self)@),
    {
        if let Some(preposition_type) = PrepositionType::from_token(token.peek_inner()) {
            let content = self.remainder.take()?;
            Ok(Some(Preposition { preposition_type, content }))
        } else {
            self.remainder.feed_one(token)?;
            Ok(None)
        }
    }

    /// Takes the finished content phrase out: see `ContentTreeParser::take`.
    pub fn take(&mut self) -> (r: Result<ContentTree, ContentParseError>)
        ensures
            old(self)@.is_valid() ==> (r matches Ok(t) && t@ == old(self)@ && final(self)@
                is Terminal),
            !old(self)@.is_valid() ==> (r matches Err(e) && e@
                == SpecContentError::InvalidTreeStructure(old(self)@) && final(self)@ == old(
                self)@),
    {
        self.remainder.take()
    }

    /// Succeeds where nothing has been read: see `ContentTreeParser::is_empty`.
    pub fn is_empty(&self) -> (r: Result<(), ContentParseError>)
        ensures
            self@ is Terminal ==> r is Ok,
            !(self@ is Terminal) ==> (r matches Err(e) && e@ == SpecContentError::NotEmpty(self@)),
    {
        self.remainder.is_empty()
    }
}

} // verus!
