//! Sentences: context, subject, objects, verbs and appositions, each closed by a particle.
use vstd::prelude::*;

use vstd::string::StringExecFns;

use crate::content::{tree_natural, ContentParseError, ContentTree, SpecContentError, SpecTree};
use crate::preposition::{
    preposition_natural, preposition_step, Preposition, PrepositionParser, SpecPreposition,
};
use crate::text::{join, join_strings, str_eq, strings_view};
use crate::Natural;
use crate::tokens::{SpecTokenWithLocation, TokenWithLocation};

verus! {

/// The prepositional phrases of a vector, as values.
pub open spec fn prepositions_view(v: Seq<Preposition>) -> Seq<SpecPreposition> {
    v.map_values(|p: Preposition| p@)
}

/// A subject or an object, as values: its prepositional phrases and its content phrase.
pub struct SpecPhrase {
    pub prepositions: Seq<SpecPreposition>,
    pub content: SpecTree,
}

/// The state of a subject or object parser, as values: the preposition parser's phrase
/// and the prepositional phrases read so far.
pub struct SpecPhraseParser {
    pub preposition_parser: SpecTree,
    pub prepositions: Seq<SpecPreposition>,
}

/// A parser that has read nothing.
pub open spec fn empty_phrase_parser() -> SpecPhraseParser {
    SpecPhraseParser { preposition_parser: SpecTree::Terminal, prepositions: seq![] }
}

/// A verb, as values.
pub struct SpecVerb {
    pub objects: Seq<SpecPhrase>,
    pub prepositions: Seq<SpecPreposition>,
    pub content: SpecTree,
}

/// The state of a verb parser, as values.
pub struct SpecVerbParser {
    pub object_parser: SpecPhraseParser,
    pub objects: Seq<SpecPhrase>,
}

/// The predicate of a sentence, as values.
pub enum SpecPredicate {
    Verbed(Seq<SpecVerb>),
    OrphanObjects(Seq<SpecPhrase>),
}

/// A sentence, as values.
pub struct SpecSentence {
    pub context: Option<Box<SpecSentence>>,
    pub subject: Option<SpecPhrase>,
    pub predicate: SpecPredicate,
    pub apposition: Option<Box<SpecSentence>>,
}

/// The state of a sentence parser, as values.
pub enum SpecSentenceParser {
    ParsingSubject { context: Option<Box<SpecSentence>>, subject_parser: SpecPhraseParser },
    ParsingPredicate {
        context: Option<Box<SpecSentence>>,
        subject: Option<SpecPhrase>,
        verbs: Seq<SpecVerb>,
        verb_parser: SpecVerbParser,
        apposition_parser: Option<Box<SpecSentenceParser>>,
    },
}

/// What a subject parser gives back, as values.
pub enum SpecSubjectOutput {
    Continues(SpecPhraseParser),
    Finished(SpecPhrase),
}

/// What a sentence parser gives back, as values.
pub enum SpecSentenceOutput {
    Continues(SpecSentenceParser),
    Finished(SpecSentence),
}

/// Why a subject is not finished, as values.
pub enum SpecSubjectError {
    PrepositionsNotEmpty(Seq<SpecPreposition>),
    HasContent(SpecContentError),
}

/// Why an object is not finished, as values.
pub enum SpecObjectError {
    UnfinishedContent(SpecContentError),
    OrphanPrepositions(Seq<SpecPreposition>),
}

/// Why a sentence could not be read, as values.
pub enum SpecSentenceError {
    Content(SpecContentError),
    Object(SpecObjectError),
    OrphanedObjectsWithVerbs(Seq<SpecPhrase>, SpecTokenWithLocation),
    UnfinishedSubject(SpecPhraseParser, SpecTokenWithLocation),
    EmptySentence(SpecTokenWithLocation),
    AppositionInSubject(SpecTokenWithLocation),
    PredicateNotEmpty,
    ContextNotEmpty,
    SubjectNotEmpty(SpecSubjectError),
}

/// A subject phrase parser or object phrase parser after one token that is not its own
/// closing particle: see `preposition_step`.
pub open spec fn phrase_step(p: SpecPhraseParser, t: SpecTokenWithLocation) -> Result<
    SpecPhraseParser,
    SpecContentError,
> {
    match preposition_step(p.preposition_parser, t) {
        Ok((s, o)) => Ok(
            SpecPhraseParser {
                preposition_parser: s,
                prepositions: match o {
                    Some(x) => p.prepositions.push(x),
                    None => p.prepositions,
                },
            },
        ),
        Err(e) => Err(e),
    }
}

/// One step of the subject parser: `su` finishes the subject where its content phrase
/// is finished; any other token goes on with the phrase.
pub open spec fn subject_step(p: SpecPhraseParser, t: SpecTokenWithLocation) -> Result<
    SpecSubjectOutput,
    SpecContentError,
> {
    if t.token.content() == "su"@ {
        if p.preposition_parser.is_valid() {
            Ok(
                SpecSubjectOutput::Finished(
                    SpecPhrase { prepositions: p.prepositions, content: p.preposition_parser },
                ),
            )
        } else {
            Err(SpecContentError::InvalidTreeStructure(p.preposition_parser))
        }
    } else {
        match phrase_step(p, t) {
            Ok(q) => Ok(SpecSubjectOutput::Continues(q)),
            Err(e) => Err(e),
        }
    }
}

/// Whether a subject parser has read nothing.
pub open spec fn subject_is_empty(p: SpecPhraseParser) -> Result<(), SpecSubjectError> {
    if !(p.preposition_parser is Terminal) {
        Err(SpecSubjectError::HasContent(SpecContentError::NotEmpty(p.preposition_parser)))
    } else if p.prepositions.len() != 0 {
        Err(SpecSubjectError::PrepositionsNotEmpty(p.prepositions))
    } else {
        Ok(())
    }
}

/// One step of the object parser: `mo` finishes an object where its content phrase is
/// finished, and starts again; any other token goes on with the phrase.
pub open spec fn object_step(p: SpecPhraseParser, t: SpecTokenWithLocation) -> Result<
    (SpecPhraseParser, Option<SpecPhrase>),
    SpecContentError,
> {
    if t.token.content() == "mo"@ {
        if p.preposition_parser.is_valid() {
            Ok(
                (
                    empty_phrase_parser(),
                    Some(SpecPhrase { prepositions: p.prepositions, content: p.preposition_parser }),
                ),
            )
        } else {
            Err(SpecContentError::InvalidTreeStructure(p.preposition_parser))
        }
    } else {
        match phrase_step(p, t) {
            Ok(q) => Ok((q, None)),
            Err(e) => Err(e),
        }
    }
}

/// Takes the finished phrase and its prepositional phrases out of an object parser.
pub open spec fn object_take(p: SpecPhraseParser) -> Result<
    (SpecPhraseParser, SpecTree, Seq<SpecPreposition>),
    SpecContentError,
> {
    if p.preposition_parser.is_valid() {
        Ok((empty_phrase_parser(), p.preposition_parser, p.prepositions))
    } else {
        Err(SpecContentError::InvalidTreeStructure(p.preposition_parser))
    }
}

/// Whether an object parser has read nothing.
pub open spec fn object_is_empty(p: SpecPhraseParser) -> Result<(), SpecObjectError> {
    if !(p.preposition_parser is Terminal) {
        Err(SpecObjectError::UnfinishedContent(SpecContentError::NotEmpty(p.preposition_parser)))
    } else if p.prepositions.len() != 0 {
        Err(SpecObjectError::OrphanPrepositions(p.prepositions))
    } else {
        Ok(())
    }
}

/// A verb parser that has read nothing.
pub open spec fn empty_verb_parser() -> SpecVerbParser {
    SpecVerbParser { object_parser: empty_phrase_parser(), objects: seq![] }
}

/// One step of the verb parser: `pa` finishes a verb with the objects read before it and
/// the finished phrase after them, and starts again; any other token goes to the
/// object parser, and a finished object is kept for the next verb.
pub open spec fn verb_step(v: SpecVerbParser, t: SpecTokenWithLocation) -> Result<
    (SpecVerbParser, Option<SpecVerb>),
    SpecContentError,
> {
    if t.token.content() == "pa"@ {
        match object_take(v.object_parser) {
            Ok((op, c, ps)) => Ok(
                (
                    SpecVerbParser { object_parser: op, objects: seq![] },
                    Some(SpecVerb { objects: v.objects, prepositions: ps, content: c }),
                ),
            ),
            Err(e) => Err(e),
        }
    } else {
        match object_step(v.object_parser, t) {
            Ok((op, o)) => Ok(
                (
                    SpecVerbParser {
                        object_parser: op,
                        objects: match o {
                            Some(x) => v.objects.push(x),
                            None => v.objects,
                        },
                    },
                    None,
                ),
            ),
            Err(e) => Err(e),
        }
    }
}

/// Law: between two verbs the verb parser's objects only grow. A token other than `pa`
/// keeps every object already read, in order, and adds at most one: the object that the
/// token finished, at the end. `pa` closes a verb that carries every object read since the
/// previous verb, in order, and the next verb starts with none.
pub proof fn lemma_verb_keeps_objects(v: SpecVerbParser, t: SpecTokenWithLocation)
    ensures
        t.token.content() != "pa"@ ==> (verb_step(v, t) matches Ok((q, o)) ==> {
            &&& q.objects.take(v.objects.len() as int) == v.objects
            &&& object_step(v.object_parser, t) matches Ok((_, fin))
            &&& fin matches Some(x) ==> q.objects == v.objects.push(x)
            &&& fin is None ==> q.objects == v.objects
            &&& o is None
        }),
        t.token.content() == "pa"@ ==> (verb_step(v, t) matches Ok((q, o)) ==> {
            &&& o matches Some(verb) && verb.objects == v.objects
            &&& q.objects.len() == 0
        }),
{
    if t.token.content() != "pa"@ {
        if let Ok((q, o)) = verb_step(v, t) {
            if let Ok((_, Some(x))) = object_step(v.object_parser, t) {
                assert(v.objects.push(x).take(v.objects.len() as int) =~= v.objects);
            } else {
                assert(v.objects.take(v.objects.len() as int) =~= v.objects);
            }
        }
    }
}

/// The objects of a verb parser that no verb took, where nothing else is left open.
pub open spec fn steal_objects(v: SpecVerbParser) -> Result<Seq<SpecPhrase>, SpecObjectError> {
    match object_is_empty(v.object_parser) {
        Err(e) => Err(e),
        Ok(_) => Ok(v.objects),
    }
}

/// Ends a sentence. Objects left without a verb are the predicate where there is no verb,
/// and are refused where there is one; a sentence with no subject, verb or object is
/// refused.
pub open spec fn commit_sentence(
    context: Option<Box<SpecSentence>>,
    subject: Option<SpecPhrase>,
    verb_parser: SpecVerbParser,
    verbs: Seq<SpecVerb>,
    apposition: Option<Box<SpecSentence>>,
    t: SpecTokenWithLocation,
) -> Result<SpecSentence, SpecSentenceError> {
    match steal_objects(verb_parser) {
        Err(e) => Err(SpecSentenceError::Object(e)),
        Ok(orphans) => if orphans.len() == 0 && verbs.len() == 0 && subject is None {
            Err(SpecSentenceError::EmptySentence(t))
        } else if orphans.len() == 0 {
            Ok(
                SpecSentence {
                    context,
                    subject,
                    predicate: SpecPredicate::Verbed(verbs),
                    apposition,
                },
            )
        } else if verbs.len() == 0 {
            Ok(
                SpecSentence {
                    context,
                    subject,
                    predicate: SpecPredicate::OrphanObjects(orphans),
                    apposition,
                },
            )
        } else {
            Err(SpecSentenceError::OrphanedObjectsWithVerbs(orphans, t))
        },
    }
}

/// A sentence parser that has read nothing.
pub open spec fn empty_sentence_parser() -> SpecSentenceParser {
    SpecSentenceParser::ParsingSubject { context: None, subject_parser: empty_phrase_parser() }
}

/// One step in the predicate with no apposition open. `:` opens an apposition, `.`
/// ends the sentence, `la` ends it as the context of the next one, and any other token
/// goes to the verb parser.
pub open spec fn predicate_step(
    context: Option<Box<SpecSentence>>,
    subject: Option<SpecPhrase>,
    verbs: Seq<SpecVerb>,
    verb_parser: SpecVerbParser,
    t: SpecTokenWithLocation,
) -> Result<SpecSentenceOutput, SpecSentenceError> {
    let c = t.token.content();
    if c == ":"@ {
        Ok(
            SpecSentenceOutput::Continues(
                SpecSentenceParser::ParsingPredicate {
                    context,
                    subject,
                    verbs,
                    verb_parser,
                    apposition_parser: Some(Box::new(empty_sentence_parser())),
                },
            ),
        )
    } else if c == "."@ {
        match commit_sentence(context, subject, verb_parser, verbs, None, t) {
            Ok(s) => Ok(SpecSentenceOutput::Finished(s)),
            Err(e) => Err(e),
        }
    } else if c == "la"@ {
        match commit_sentence(context, subject, verb_parser, verbs, None, t) {
            Ok(s) => Ok(
                SpecSentenceOutput::Continues(
                    SpecSentenceParser::ParsingSubject {
                        context: Some(Box::new(s)),
                        subject_parser: empty_phrase_parser(),
                    },
                ),
            ),
            Err(e) => Err(e),
        }
    } else {
        match verb_step(verb_parser, t) {
            Err(e) => Err(SpecSentenceError::Content(e)),
            Ok((vp, v)) => Ok(
                SpecSentenceOutput::Continues(
                    SpecSentenceParser::ParsingPredicate {
                        context,
                        subject,
                        verbs: match v {
                            Some(x) => verbs.push(x),
                            None => verbs,
                        },
                        verb_parser: vp,
                        apposition_parser: None,
                    },
                ),
            ),
        }
    }
}

/// Law: in the predicate, a token other than `:`, `.` and `la` keeps every verb already
/// read, in order, and adds at most one, the verb the token closed, at the end; it keeps
/// the context and the subject. A full stop ends the sentence with that context and
/// subject, and with every verb read, or, where there is none, with every object left.
pub proof fn lemma_predicate_keeps_verbs(
    context: Option<Box<SpecSentence>>,
    subject: Option<SpecPhrase>,
    verbs: Seq<SpecVerb>,
    verb_parser: SpecVerbParser,
    t: SpecTokenWithLocation,
)
    ensures
        t.token.content() != ":"@ && t.token.content() != "."@ && t.token.content() != "la"@
            ==> (predicate_step(context, subject, verbs, verb_parser, t) matches Ok(out) ==> {
            &&& out matches SpecSentenceOutput::Continues(
                SpecSentenceParser::ParsingPredicate { context: c2, subject: s2, verbs: vs, .. },
            )
            &&& c2 == context && s2 == subject
            &&& vs.take(verbs.len() as int) == verbs
            &&& verb_step(verb_parser, t) matches Ok((_, fin))
            &&& fin matches Some(x) ==> vs == verbs.push(x)
            &&& fin is None ==> vs == verbs
        }),
        t.token.content() == "."@ ==> (predicate_step(context, subject, verbs, verb_parser, t)
            matches Ok(out) ==> {
            &&& out matches SpecSentenceOutput::Finished(sentence)
            &&& sentence.context == context && sentence.subject == subject
            &&& sentence.apposition is None
            &&& sentence.predicate matches SpecPredicate::Verbed(vs) ==> vs == verbs
            &&& sentence.predicate matches SpecPredicate::OrphanObjects(os) ==> verbs.len() == 0
                && os == verb_parser.objects
        }),
{
    reveal_strlit(":");
    reveal_strlit(".");
    reveal_strlit("la");
    assert(":"@ != "."@) by {
        assert(":"@[0] != "."@[0]);
    }
    if t.token.content() != ":"@ && t.token.content() != "."@ && t.token.content() != "la"@ {
        if let Ok((_, Some(x))) = verb_step(verb_parser, t) {
            assert(verbs.push(x).take(verbs.len() as int) =~= verbs);
        } else {
            assert(verbs.take(verbs.len() as int) =~= verbs);
        }
    }
}

/// One step of the sentence parser.
///
/// Before the subject is finished: `:` is refused; `mo` or `pa` start the predicate
/// without a subject, with what was read as its first object or verb; `.` and `la` are
/// refused as ending an unfinished subject; any other token goes to the subject parser,
/// and a finished subject starts the predicate.
///
/// In the predicate: an open apposition takes the token, and where it finishes, the
/// sentence ends with it; otherwise see `predicate_step`.
pub open spec fn sentence_step(p: SpecSentenceParser, t: SpecTokenWithLocation) -> Result<
    SpecSentenceOutput,
    SpecSentenceError,
>
    decreases p,
{
    match p {
        SpecSentenceParser::ParsingSubject { context, subject_parser } => {
            let c = t.token.content();
            if c == ":"@ {
                Err(SpecSentenceError::AppositionInSubject(t))
            } else if c == "mo"@ || c == "pa"@ {
                predicate_step(
                    context,
                    None,
                    seq![],
                    SpecVerbParser { object_parser: subject_parser, objects: seq![] },
                    t,
                )
            } else if c == "."@ || c == "la"@ {
                Err(SpecSentenceError::UnfinishedSubject(subject_parser, t))
            } else {
                match subject_step(subject_parser, t) {
                    Err(e) => Err(SpecSentenceError::Content(e)),
                    Ok(SpecSubjectOutput::Continues(sp)) => Ok(
                        SpecSentenceOutput::Continues(
                            SpecSentenceParser::ParsingSubject { context, subject_parser: sp },
                        ),
                    ),
                    Ok(SpecSubjectOutput::Finished(s)) => Ok(
                        SpecSentenceOutput::Continues(
                            SpecSentenceParser::ParsingPredicate {
                                context,
                                subject: Some(s),
                                verbs: seq![],
                                verb_parser: empty_verb_parser(),
                                apposition_parser: None,
                            },
                        ),
                    ),
                }
            }
        },
        SpecSentenceParser::ParsingPredicate {
            context,
            subject,
            verbs,
            verb_parser,
            apposition_parser,
        } => match apposition_parser {
            Some(ap) => match sentence_step(*ap, t) {
                Err(e) => Err(e),
                Ok(SpecSentenceOutput::Finished(a)) => match commit_sentence(
                    context,
                    subject,
                    verb_parser,
                    verbs,
                    Some(Box::new(a)),
                    t,
                ) {
                    Ok(s) => Ok(SpecSentenceOutput::Finished(s)),
                    Err(e) => Err(e),
                },
                Ok(SpecSentenceOutput::Continues(q)) => Ok(
                    SpecSentenceOutput::Continues(
                        SpecSentenceParser::ParsingPredicate {
                            context,
                            subject,
                            verbs,
                            verb_parser,
                            apposition_parser: Some(Box::new(q)),
                        },
                    ),
                ),
            },
            None => predicate_step(context, subject, verbs, verb_parser, t),
        },
    }
}

/// Whether a sentence parser has read nothing: a parser in the predicate has; a parser
/// with a context sentence has; otherwise see `subject_is_empty`.
pub open spec fn sentence_is_empty(p: SpecSentenceParser) -> Result<(), SpecSentenceError> {
    match p {
        SpecSentenceParser::ParsingSubject { context, subject_parser } => if context is Some {
            Err(SpecSentenceError::ContextNotEmpty)
        } else {
            match subject_is_empty(subject_parser) {
                Ok(_) => Ok(()),
                Err(e) => Err(SpecSentenceError::SubjectNotEmpty(e)),
            }
        },
        SpecSentenceParser::ParsingPredicate { .. } => Err(SpecSentenceError::PredicateNotEmpty),
    }
}


/// A subject: its prepositional phrases and its content phrase.
#[derive(Debug)]
pub struct Subject {
    pub prepositions: Vec<Preposition>,
    pub content: ContentTree,
}

impl View for Subject {
    type V = SpecPhrase;

    open spec fn view(&self) -> SpecPhrase {
        SpecPhrase { prepositions: prepositions_view(self.prepositions@), content: self.content@ }
    }
}

/// An object: its prepositional phrases and its content phrase.
#[derive(Debug)]
pub struct Object {
    pub prepositions: Vec<Preposition>,
    pub content: ContentTree,
}

impl View for Object {
    type V = SpecPhrase;

    open spec fn view(&self) -> SpecPhrase {
        SpecPhrase { prepositions: prepositions_view(self.prepositions@), content: self.content@ }
    }
}

/// The objects of a vector, as values.
pub open spec fn objects_view(v: Seq<Object>) -> Seq<SpecPhrase> {
    v.map_values(|o: Object| o@)
}

/// A verb: the objects before it, its prepositional phrases and its content phrase.
#[derive(Debug)]
pub struct Verb {
    pub objects: Vec<Object>,
    pub prepositions: Vec<Preposition>,
    pub content: ContentTree,
}

impl View for Verb {
    type V = SpecVerb;

    open spec fn view(&self) -> SpecVerb {
        SpecVerb {
            objects: objects_view(self.objects@),
            prepositions: prepositions_view(self.prepositions@),
            content: self.content@,
        }
    }
}

/// The verbs of a vector, as values.
pub open spec fn verbs_view(v: Seq<Verb>) -> Seq<SpecVerb> {
    v.map_values(|x: Verb| x@)
}

fn clone_prepositions(v: &Vec<Preposition>) -> (r: Vec<Preposition>)
    ensures
        prepositions_view(r@) == prepositions_view(v@),
{
    let mut r: Vec<Preposition> = Vec::new();
    let mut i: usize = 0;
    while i < v.len()
        invariant
            i <= v@.len(),
            r@.len() == i,
            forall|j: int| 0 <= j < i ==> (#[trigger] r@[j])@ == v@[j]@,
        decreases v@.len() - i,
    {
        r.push(v[i].clone());
        i = i + 1;
    }
    assert(prepositions_view(r@) =~= prepositions_view(v@));
    r
}

impl Clone for Object {
    fn clone(&self) -> (r: Self)
        ensures
            r@ == self@,
    {
        Object { prepositions: clone_prepositions(&self.prepositions), content: self.content.clone() }
    }
}

fn clone_objects(v: &Vec<Object>) -> (r: Vec<Object>)
    ensures
        objects_view(r@) == objects_view(v@),
{
    let mut r: Vec<Object> = Vec::new();
    let mut i: usize = 0;
    while i < v.len()
        invariant
            i <= v@.len(),
            r@.len() == i,
            forall|j: int| 0 <= j < i ==> (#[trigger] r@[j])@ == v@[j]@,
        decreases v@.len() - i,
    {
        r.push(v[i].clone());
        i = i + 1;
    }
    assert(objects_view(r@) =~= objects_view(v@));
    r
}

/// Reads a subject, up to its particle `su`.
#[derive(Debug)]
pub struct SubjectParser {
    preposition_parser: PrepositionParser,
    prepositions: Vec<Preposition>,
}

impl View for SubjectParser {
    type V = SpecPhraseParser;

    closed spec fn view(&self) -> SpecPhraseParser {
        SpecPhraseParser {
            preposition_parser: self.preposition_parser@,
            prepositions: prepositions_view(self.prepositions@),
        }
    }
}

/// What a subject parser gives back.
pub enum SubjectParsingOutput {
    Continues(SubjectParser),
    Finished(Subject),
}

/// Why a subject is not finished.
#[derive(Debug)]
pub enum SubjectParsingError {
    PrepositionsNotEmpty(Vec<Preposition>),
    HasContent(ContentParseError),
}

impl View for SubjectParsingError {
    type V = SpecSubjectError;

    open spec fn view(&self) -> SpecSubjectError {
        match self {
            SubjectParsingError::PrepositionsNotEmpty(v) => SpecSubjectError::PrepositionsNotEmpty(
                prepositions_view(v@),
            ),
            SubjectParsingError::HasContent(e) => SpecSubjectError::HasContent(e@),
        }
    }
}

impl SubjectParser {
    /// A parser that has read nothing.
    pub fn new() -> (r: Self)
        ensures
            r@ == empty_phrase_parser(),
    {
        let r = SubjectParser { preposition_parser: PrepositionParser::new(), prepositions: Vec::new() };
        assert(r@.prepositions =~= seq![]);
        r
    }

    /// Succeeds where nothing has been read: see `subject_is_empty`.
    pub fn is_empty(&self) -> (r: Result<(), SubjectParsingError>)
        ensures
            subject_is_empty(self@) is Ok ==> r is Ok,
            subject_is_empty(self@) matches Err(e) ==> (r matches Err(x) && x@ == e),
    {
        if let Err(e) = self.preposition_parser.is_empty() {
            return Err(SubjectParsingError::HasContent(e));
        }
        if self.prepositions.len() == 0 {
            Ok(())
        } else {
            Err(SubjectParsingError::PrepositionsNotEmpty(clone_prepositions(&self.prepositions)))
        }
    }

    /// Reads one token: see `subject_step`.
    pub fn feed_one(self, token: TokenWithLocation) -> (r: Result<
        SubjectParsingOutput,
        ContentParseError,
    >)
        ensures
            subject_step(self@, token@) matches Ok(SpecSubjectOutput::Continues(q)) ==> (r matches Ok(
                SubjectParsingOutput::Continues(x),
            ) && x@ == q),
            subject_step(self@, token@) matches Ok(SpecSubjectOutput::Finished(q)) ==> (r matches Ok(
                SubjectParsingOutput::Finished(x),
            ) && x@ == q),
            subject_step(self@, token@) matches Err(e) ==> (r matches Err(x) && x@ == e),
    {
        let mut this = self;
        if str_eq(token.peek_inner().content(), "su") {
            let content = this.preposition_parser.close()?;
            Ok(SubjectParsingOutput::Finished(Subject { prepositions: this.prepositions, content }))
        } else {
            let ghost before = prepositions_view(this.prepositions@);
            let result = this.preposition_parser.feed_one(token)?;
            if let Some(preposition) = result {
                this.prepositions.push(preposition);
                assert(prepositions_view(this.prepositions@) =~= before.push(
                    prepositions_view(this.prepositions@).last(),
                ));
            }
            Ok(SubjectParsingOutput::Continues(this))
        }
    }
}


/// Reads objects, each up to its particle `mo`.
#[derive(Debug)]
pub struct ObjectParser {
    preposition_parser: PrepositionParser,
    prepositions: Vec<Preposition>,
}

impl View for ObjectParser {
    type V = SpecPhraseParser;

    closed spec fn view(&self) -> SpecPhraseParser {
        SpecPhraseParser {
            preposition_parser: self.preposition_parser@,
            prepositions: prepositions_view(self.prepositions@),
        }
    }
}

/// Why an object is not finished.
#[derive(Debug)]
pub enum ObjectParseError {
    UnfinishedContent(ContentParseError),
    OrphanPrepositions(Vec<Preposition>),
}

impl View for ObjectParseError {
    type V = SpecObjectError;

    open spec fn view(&self) -> SpecObjectError {
        match self {
            ObjectParseError::UnfinishedContent(e) => SpecObjectError::UnfinishedContent(e@),
            ObjectParseError::OrphanPrepositions(v) => SpecObjectError::OrphanPrepositions(
                prepositions_view(v@),
            ),
        }
    }
}

impl ObjectParser {
    /// A parser that has read nothing.
    pub fn new() -> (r: Self)
        ensures
            r@ == empty_phrase_parser(),
    {
        let r = ObjectParser { preposition_parser: PrepositionParser::new(), prepositions: Vec::new() };
        assert(r@.prepositions =~= seq![]);
        r
    }

    /// Reads one token: see `object_step`. On an error nothing changes.
    pub fn feed_one(&mut self, token: TokenWithLocation) -> (r: Result<
        Option<Object>,
        ContentParseError,
    >)
        ensures
            object_step(old(self)@, token@) matches Ok((q, o)) ==> (r matches Ok(x) && final(self)@
                == q && (o matches Some(ov) ==> (x matches Some(xv) && xv@ == ov)) && (o is None
                ==> x is None)),
            object_step(old(self)@, token@) matches Err(e) ==> (r matches Err(x) && x@ == e
                && final(self)@ == old(self)@),
    {
        if str_eq(token.peek_inner().content(), "mo") {
            let prepositions = clone_prepositions(&self.prepositions);
            let content = self.preposition_parser.take()?;
            let result = Ok(Some(Object { prepositions, content }));
            self.prepositions = Vec::new();
            assert(self@.prepositions =~= seq![]);
            result
        } else {
            let ghost before = prepositions_view(self.prepositions@);
            let result = self.preposition_parser.feed_one(token)?;
            if let Some(preposition) = result {
                self.prepositions.push(preposition);
                assert(prepositions_view(self.prepositions@) =~= before.push(
                    prepositions_view(self.prepositions@).last(),
                ));
            }
            Ok(None)
        }
    }

    /// Takes the finished phrase and its prepositional phrases out: see `object_take`. On
    /// an error nothing changes.
    pub fn take(&mut self) -> (r: Result<(ContentTree, Vec<Preposition>), ContentParseError>)
        ensures
            object_take(old(self)@) matches Ok((q, c, ps)) ==> (r matches Ok((x, y)) && final(
                self)@ == q && x@ == c && prepositions_view(y@) == ps),
            object_take(old(self)@) matches Err(e) ==> (r matches Err(x) && x@ == e && final(self)@
                == old(self)@),
    {
        let content = self.preposition_parser.take()?;
        let prepositions = clone_prepositions(&self.prepositions);
        self.prepositions = Vec::new();
        assert(self@.prepositions =~= seq![]);
        Ok((content, prepositions))
    }

    /// Succeeds where nothing has been read: see `object_is_empty`.
    pub fn is_empty(&self) -> (r: Result<(), ObjectParseError>)
        ensures
            object_is_empty(self@) is Ok ==> r is Ok,
            object_is_empty(self@) matches Err(e) ==> (r matches Err(x) && x@ == e),
    {
        if let Err(e) = self.preposition_parser.is_empty() {
            return Err(ObjectParseError::UnfinishedContent(e));
        }
        if self.prepositions.len() == 0 {
            Ok(())
        } else {
            Err(ObjectParseError::OrphanPrepositions(clone_prepositions(&self.prepositions)))
        }
    }
}

/// Reads verbs, each with the objects before it, up to its particle `pa`.
pub struct VerbParser {
    object_parser: ObjectParser,
    objects: Vec<Object>,
}

impl View for VerbParser {
    type V = SpecVerbParser;

    closed spec fn view(&self) -> SpecVerbParser {
        SpecVerbParser { object_parser: self.object_parser@, objects: objects_view(self.objects@) }
    }
}

impl VerbParser {
    /// A parser that has read nothing.
    pub fn new() -> (r: Self)
        ensures
            r@ == empty_verb_parser(),
    {
        let r = VerbParser { object_parser: ObjectParser::new(), objects: Vec::new() };
        assert(r@.objects =~= seq![]);
        r
    }

    /// Reads one token: see `verb_step`. On an error nothing changes.
    pub fn feed_one(&mut self, token: TokenWithLocation) -> (r: Result<
        Option<Verb>,
        ContentParseError,
    >)
        ensures
            verb_step(old(self)@, token@) matches Ok((q, o)) ==> (r matches Ok(x) && final(self)@
                == q && (o matches Some(ov) ==> (x matches Some(xv) && xv@ == ov)) && (o is None
                ==> x is None)),
            verb_step(old(self)@, token@) matches Err(e) ==> (r matches Err(x) && x@ == e
                && final(self)@ == old(self)@),
    {
        if str_eq(token.peek_inner().content(), "pa") {
            let (content, prepositions) = self.object_parser.take()?;
            let result = Ok(Some(Verb { objects: clone_objects(&self.objects), prepositions, content }));
            self.objects = Vec::new();
            assert(self@.objects =~= seq![]);
            result
        } else {
            let ghost before = objects_view(self.objects@);
            let result = self.object_parser.feed_one(token)?;
            if let Some(object) = result {
                self.objects.push(object);
                assert(objects_view(self.objects@) =~= before.push(
                    objects_view(self.objects@).last(),
                ));
            }
            Ok(None)
        }
    }

    /// The objects that no verb took, where the object parser has nothing open: see
    /// `steal_objects`.
    pub fn steal_objects(self) -> (r: Result<Vec<Object>, ObjectParseError>)
        ensures
            steal_objects(self@) matches Ok(os) ==> (r matches Ok(x) && objects_view(x@) == os),
            steal_objects(self@) matches Err(e) ==> (r matches Err(x) && x@ == e),
    {
        self.object_parser.is_empty()?;
        Ok(self.objects)
    }
}

/// The object parser holds what the subject parser read.
spec fn goes_on_as_objects(s: SubjectParser, o: ObjectParser) -> bool {
    o@ == s@
}

/// The verb parser holds what the subject parser read, in its object parser, and no
/// object yet.
spec fn goes_on_as_verbs(s: SubjectParser, v: VerbParser) -> bool {
    v@ == (SpecVerbParser { object_parser: s@, objects: seq![] })
}

/// Turning one phrase parser into the next, keeping what was read.
trait Upgrade<T> {
    fn upgrade(self) -> (r: T);
}

impl Upgrade<ObjectParser> for SubjectParser {
    /// An object parser that goes on from what the subject parser has read.
    fn upgrade(self) -> (r: ObjectParser)
        ensures
            goes_on_as_objects(self, r),
    {
        let SubjectParser { preposition_parser, prepositions } = self;
        ObjectParser { preposition_parser, prepositions }
    }
}

impl Upgrade<VerbParser> for SubjectParser {
    /// A verb parser that goes on from what the subject parser has read, as its first
    /// object or verb.
    fn upgrade(self) -> (r: VerbParser)
        ensures
            goes_on_as_verbs(self, r),
    {
        let object_parser: ObjectParser = self.upgrade();
        let r = VerbParser { object_parser, objects: Vec::new() };
        assert(r@.objects =~= seq![]);
        r
    }
}


/// The predicate of a sentence: its verbs, or, where it has none, its objects.
#[derive(Debug)]
pub enum PredicateType {
    Verbed(Vec<Verb>),
    OrphanObjects(Vec<Object>),
}

impl View for PredicateType {
    type V = SpecPredicate;

    open spec fn view(&self) -> SpecPredicate {
        match self {
            PredicateType::Verbed(v) => SpecPredicate::Verbed(verbs_view(v@)),
            PredicateType::OrphanObjects(v) => SpecPredicate::OrphanObjects(objects_view(v@)),
        }
    }
}

/// A sentence: the sentence before `la` that frames it, its subject, its predicate, and
/// the sentence after `:` that comments on it.
#[derive(Debug)]
pub struct Sentence {
    pub context: Option<Box<Sentence>>,
    pub subject: Option<Subject>,
    pub predicate: PredicateType,
    pub apposition: Option<Box<Sentence>>,
}

/// An optional subject, as values.
pub open spec fn opt_subject_view(o: Option<Subject>) -> Option<SpecPhrase> {
    match o {
        Some(x) => Some(x@),
        None => None,
    }
}

impl Sentence {
    /// The sentence as values.
    pub open spec fn model(self) -> SpecSentence
        decreases self,
    {
        SpecSentence {
            context: match self.context {
                Some(c) => Some(Box::new((*c).model())),
                None => None,
            },
            subject: opt_subject_view(self.subject),
            predicate: self.predicate@,
            apposition: match self.apposition {
                Some(a) => Some(Box::new((*a).model())),
                None => None,
            },
        }
    }
}

impl View for Sentence {
    type V = SpecSentence;

    open spec fn view(&self) -> SpecSentence {
        self.model()
    }
}

/// An optional boxed sentence, as values.
pub open spec fn opt_sentence_view(o: Option<Box<Sentence>>) -> Option<Box<SpecSentence>> {
    match o {
        Some(b) => Some(Box::new((*b).model())),
        None => None,
    }
}

/// Reads one sentence, token by token.
pub enum SentenceParser {
    ParsingSubject { context: Option<Box<Sentence>>, subject_parser: SubjectParser },
    ParsingPredicate {
        context: Option<Box<Sentence>>,
        subject: Option<Subject>,
        verbs: Vec<Verb>,
        verb_parser: VerbParser,
        apposition_parser: Option<Box<SentenceParser>>,
    },
}

impl SentenceParser {
    /// The parser as values.
    pub open spec fn model(self) -> SpecSentenceParser
        decreases self,
    {
        match self {
            SentenceParser::ParsingSubject { context, subject_parser } => {
                SpecSentenceParser::ParsingSubject {
                    context: opt_sentence_view(context),
                    subject_parser: subject_parser@,
                }
            },
            SentenceParser::ParsingPredicate {
                context,
                subject,
                verbs,
                verb_parser,
                apposition_parser,
            } => SpecSentenceParser::ParsingPredicate {
                context: opt_sentence_view(context),
                subject: opt_subject_view(subject),
                verbs: verbs_view(verbs@),
                verb_parser: verb_parser@,
                apposition_parser: match apposition_parser {
                    Some(ap) => Some(Box::new((*ap).model())),
                    None => None,
                },
            },
        }
    }
}

impl View for SentenceParser {
    type V = SpecSentenceParser;

    open spec fn view(&self) -> SpecSentenceParser {
        self.model()
    }
}

/// What a sentence parser gives back.
pub enum SentenceParsingOutput {
    Continues(SentenceParser),
    Finished(Sentence),
}

impl View for SentenceParsingOutput {
    type V = SpecSentenceOutput;

    open spec fn view(&self) -> SpecSentenceOutput {
        match self {
            SentenceParsingOutput::Continues(p) => SpecSentenceOutput::Continues(p@),
            SentenceParsingOutput::Finished(s) => SpecSentenceOutput::Finished(s@),
        }
    }
}

/// Why a sentence could not be read.
#[derive(Debug)]
pub enum SentenceParseError {
    Content(ContentParseError),
    Object(ObjectParseError),
    OrphanedObjectsWithVerbs(Vec<Object>, TokenWithLocation),
    UnfinishedSubject(SubjectParser, TokenWithLocation),
    EmptySentence(TokenWithLocation),
    AppositionInSubject(TokenWithLocation),
    PredicateNotEmpty,
    ContextNotEmpty,
    SubjectNotEmpty(SubjectParsingError),
}

impl View for SentenceParseError {
    type V = SpecSentenceError;

    open spec fn view(&self) -> SpecSentenceError {
        match self {
            SentenceParseError::Content(e) => SpecSentenceError::Content(e@),
            SentenceParseError::Object(e) => SpecSentenceError::Object(e@),
            SentenceParseError::OrphanedObjectsWithVerbs(v, t) => {
                SpecSentenceError::OrphanedObjectsWithVerbs(objects_view(v@), t@)
            },
            SentenceParseError::UnfinishedSubject(p, t) => SpecSentenceError::UnfinishedSubject(
                p@,
                t@,
            ),
            SentenceParseError::EmptySentence(t) => SpecSentenceError::EmptySentence(t@),
            SentenceParseError::AppositionInSubject(t) => SpecSentenceError::AppositionInSubject(
                t@,
            ),
            SentenceParseError::PredicateNotEmpty => SpecSentenceError::PredicateNotEmpty,
            SentenceParseError::ContextNotEmpty => SpecSentenceError::ContextNotEmpty,
            SentenceParseError::SubjectNotEmpty(e) => SpecSentenceError::SubjectNotEmpty(e@),
        }
    }
}

fn commit(
    context: Option<Box<Sentence>>,
    subject: Option<Subject>,
    verb_parser: VerbParser,
    verbs: Vec<Verb>,
    apposition: Option<Box<Sentence>>,
    token: &TokenWithLocation,
) -> (r: Result<Sentence, SentenceParseError>)
    ensures
        commit_sentence(
            opt_sentence_view(context),
            opt_subject_view(subject),
            verb_parser@,
            verbs_view(verbs@),
            opt_sentence_view(apposition),
            token@,
        ) matches Ok(s) ==> (r matches Ok(x) && x@ == s),
        commit_sentence(
            opt_sentence_view(context),
            opt_subject_view(subject),
            verb_parser@,
            verbs_view(verbs@),
            opt_sentence_view(apposition),
            token@,
        ) matches Err(e) ==> (r matches Err(x) && x@ == e),
{
    let orphans = match verb_parser.steal_objects() {
        Ok(o) => o,
        Err(e) => {
            return Err(SentenceParseError::Object(e));
        },
    };
    if orphans.len() == 0 && verbs.len() == 0 && subject.is_none() {
        Err(SentenceParseError::EmptySentence(token.clone()))
    } else if orphans.len() == 0 {
        Ok(Sentence { context, subject, predicate: PredicateType::Verbed(verbs), apposition })
    } else if verbs.len() == 0 {
        Ok(Sentence { context, subject, predicate: PredicateType::OrphanObjects(orphans), apposition })
    } else {
        Err(SentenceParseError::OrphanedObjectsWithVerbs(orphans, token.clone()))
    }
}

fn predicate_feed(
    context: Option<Box<Sentence>>,
    subject: Option<Subject>,
    verbs: Vec<Verb>,
    verb_parser: VerbParser,
    token: TokenWithLocation,
) -> (r: Result<SentenceParsingOutput, SentenceParseError>)
    ensures
        predicate_step(
            opt_sentence_view(context),
            opt_subject_view(subject),
            verbs_view(verbs@),
            verb_parser@,
            token@,
        ) matches Ok(o) ==> (r matches Ok(x) && x@ == o),
        predicate_step(
            opt_sentence_view(context),
            opt_subject_view(subject),
            verbs_view(verbs@),
            verb_parser@,
            token@,
        ) matches Err(e) ==> (r matches Err(x) && x@ == e),
{
    let is_colon = str_eq(token.peek_inner().content(), ":");
    let is_stop = str_eq(token.peek_inner().content(), ".");
    let is_la = str_eq(token.peek_inner().content(), "la");
    if is_colon {
        let r = SentenceParser::ParsingPredicate {
            context,
            subject,
            verbs,
            verb_parser,
            apposition_parser: Some(Box::new(SentenceParser::new())),
        };
        return Ok(SentenceParsingOutput::Continues(r));
    }
    if is_stop {
        let s = commit(context, subject, verb_parser, verbs, None, &token)?;
        return Ok(SentenceParsingOutput::Finished(s));
    }
    if is_la {
        let s = commit(context, subject, verb_parser, verbs, None, &token)?;
        return Ok(
            SentenceParsingOutput::Continues(
                SentenceParser::ParsingSubject {
                    context: Some(Box::new(s)),
                    subject_parser: SubjectParser::new(),
                },
            ),
        );
    }
    let mut verb_parser = verb_parser;
    let mut verbs = verbs;
    match verb_parser.feed_one(token) {
        Err(e) => Err(SentenceParseError::Content(e)),
        Ok(v) => {
            let ghost before = verbs_view(verbs@);
            if let Some(v) = v {
                verbs.push(v);
                assert(verbs_view(verbs@) =~= before.push(verbs_view(verbs@).last()));
            }
            Ok(
                SentenceParsingOutput::Continues(
                    SentenceParser::ParsingPredicate {
                        context,
                        subject,
                        verbs,
                        verb_parser,
                        apposition_parser: None,
                    },
                ),
            )
        },
    }
}

impl SentenceParser {
    /// A parser that has read nothing.
    pub fn new() -> (r: Self)
        ensures
            r@ == empty_sentence_parser(),
    {
        SentenceParser::ParsingSubject { context: None, subject_parser: SubjectParser::new() }
    }

    /// Succeeds where nothing has been read: see `sentence_is_empty`.
    pub fn is_empty(&mut self) -> (r: Result<(), SentenceParseError>)
        ensures
            final(self)@ == old(self)@,
            sentence_is_empty(old(self)@) is Ok ==> r is Ok,
            sentence_is_empty(old(self)@) matches Err(e) ==> (r matches Err(x) && x@ == e),
    {
        match self {
            SentenceParser::ParsingSubject { context, subject_parser } => {
                if context.is_some() {
                    return Err(SentenceParseError::ContextNotEmpty);
                }
                match subject_parser.is_empty() {
                    Ok(()) => Ok(()),
                    Err(e) => Err(SentenceParseError::SubjectNotEmpty(e)),
                }
            },
            SentenceParser::ParsingPredicate { .. } => Err(SentenceParseError::PredicateNotEmpty),
        }
    }

    /// Reads one token: see `sentence_step`.
    pub fn feed_one(self, token: TokenWithLocation) -> (r: Result<
        SentenceParsingOutput,
        SentenceParseError,
    >)
        ensures
            sentence_step(self@, token@) matches Ok(o) ==> (r matches Ok(x) && x@ == o),
            sentence_step(self@, token@) matches Err(e) ==> (r matches Err(x) && x@ == e),
        decreases self,
    {
        proof {
            reveal_with_fuel(SentenceParser::model, 2);
        }
        match self {
            SentenceParser::ParsingSubject { context, subject_parser } => {
                let is_colon = str_eq(token.peek_inner().content(), ":");
                let is_mo = str_eq(token.peek_inner().content(), "mo");
                let is_pa = str_eq(token.peek_inner().content(), "pa");
                let is_stop = str_eq(token.peek_inner().content(), ".");
                let is_la = str_eq(token.peek_inner().content(), "la");
                if is_colon {
                    return Err(SentenceParseError::AppositionInSubject(token));
                }
                if is_mo || is_pa {
                    let verb_parser: VerbParser = subject_parser.upgrade();
                    let verbs: Vec<Verb> = Vec::new();
                    assert(verbs_view(verbs@) =~= seq![]);
                    return predicate_feed(context, None, verbs, verb_parser, token);
                }
                if is_stop || is_la {
                    return Err(SentenceParseError::UnfinishedSubject(subject_parser, token));
                }
                match subject_parser.feed_one(token) {
                    Err(e) => Err(SentenceParseError::Content(e)),
                    Ok(SubjectParsingOutput::Continues(subject_parser)) => Ok(
                        SentenceParsingOutput::Continues(
                            SentenceParser::ParsingSubject { context, subject_parser },
                        ),
                    ),
                    Ok(SubjectParsingOutput::Finished(subject)) => {
                        let verbs: Vec<Verb> = Vec::new();
                        assert(verbs_view(verbs@) =~= seq![]);
                        Ok(
                            SentenceParsingOutput::Continues(
                                SentenceParser::ParsingPredicate {
                                    context,
                                    subject: Some(subject),
                                    verbs,
                                    verb_parser: VerbParser::new(),
                                    apposition_parser: None,
                                },
                            ),
                        )
                    },
                }
            },
            SentenceParser::ParsingPredicate {
                context,
                subject,
                verbs,
                verb_parser,
                apposition_parser,
            } => {
                match apposition_parser {
                    Some(apposition_parser) => {
                        let token_copy = token.clone();
                        match (*apposition_parser).feed_one(token)? {
                            SentenceParsingOutput::Finished(apposition) => {
                                let s = commit(
                                    context,
                                    subject,
                                    verb_parser,
                                    verbs,
                                    Some(Box::new(apposition)),
                                    &token_copy,
                                )?;
                                Ok(SentenceParsingOutput::Finished(s))
                            },
                            SentenceParsingOutput::Continues(p) => Ok(
                                SentenceParsingOutput::Continues(
                                    SentenceParser::ParsingPredicate {
                                        context,
                                        subject,
                                        verbs,
                                        verb_parser,
                                        apposition_parser: Some(Box::new(p)),
                                    },
                                ),
                            ),
                        }
                    },
                    None => predicate_feed(context, subject, verbs, verb_parser, token),
                }
            },
        }
    }
}


/// Every prepositional phrase of the list is finished.
pub open spec fn prepositions_wf(ps: Seq<SpecPreposition>) -> bool {
    forall|i: int| 0 <= i < ps.len() ==> (#[trigger] ps[i]).content.is_valid()
}

/// A subject or object whose phrases are all finished.
pub open spec fn phrase_wf(p: SpecPhrase) -> bool {
    prepositions_wf(p.prepositions) && p.content.is_valid()
}

/// Every subject or object of the list has its phrases finished.
pub open spec fn phrases_wf(os: Seq<SpecPhrase>) -> bool {
    forall|i: int| 0 <= i < os.len() ==> phrase_wf(#[trigger] os[i])
}

/// A verb whose phrases are all finished.
pub open spec fn verb_wf(v: SpecVerb) -> bool {
    phrases_wf(v.objects) && prepositions_wf(v.prepositions) && v.content.is_valid()
}

/// Every verb of the list has its phrases finished.
pub open spec fn verbs_wf(vs: Seq<SpecVerb>) -> bool {
    forall|i: int| 0 <= i < vs.len() ==> verb_wf(#[trigger] vs[i])
}

/// A sentence in which every phrase, down through its context and apposition, is
/// finished.
#[verifier::opaque]
pub open spec fn sentence_wf(s: SpecSentence) -> bool
    decreases s,
{
    &&& match s.context {
        Some(c) => sentence_wf(*c),
        None => true,
    }
    &&& match s.subject {
        Some(x) => phrase_wf(x),
        None => true,
    }
    &&& match s.predicate {
        SpecPredicate::Verbed(vs) => verbs_wf(vs),
        SpecPredicate::OrphanObjects(os) => phrases_wf(os),
    }
    &&& match s.apposition {
        Some(a) => sentence_wf(*a),
        None => true,
    }
}

/// What a sentence parser keeps is finished: its context, subject, verbs, objects and
/// prepositional phrases, and the same of an open apposition.
pub open spec fn parser_wf(p: SpecSentenceParser) -> bool
    decreases p,
{
    match p {
        SpecSentenceParser::ParsingSubject { context, subject_parser } => {
            &&& match context {
                Some(c) => sentence_wf(*c),
                None => true,
            }
            &&& prepositions_wf(subject_parser.prepositions)
        },
        SpecSentenceParser::ParsingPredicate {
            context,
            subject,
            verbs,
            verb_parser,
            apposition_parser,
        } => {
            &&& match context {
                Some(c) => sentence_wf(*c),
                None => true,
            }
            &&& match subject {
                Some(x) => phrase_wf(x),
                None => true,
            }
            &&& verbs_wf(verbs)
            &&& prepositions_wf(verb_parser.object_parser.prepositions)
            &&& phrases_wf(verb_parser.objects)
            &&& match apposition_parser {
                Some(ap) => parser_wf(*ap),
                None => true,
            }
        },
    }
}

proof fn lemma_phrase_step_wf(p: SpecPhraseParser, t: SpecTokenWithLocation)
    requires
        prepositions_wf(p.prepositions),
    ensures
        phrase_step(p, t) matches Ok(q) ==> prepositions_wf(q.prepositions),
{
    if let Ok((s, Some(x))) = preposition_step(p.preposition_parser, t) {
        assert forall|i: int| 0 <= i < p.prepositions.push(x).len() implies (
        #[trigger] p.prepositions.push(x)[i]).content.is_valid() by {
            if i < p.prepositions.len() {
                assert(p.prepositions.push(x)[i] == p.prepositions[i]);
            }
        }
    }
}

proof fn lemma_commit_wf(
    context: Option<Box<SpecSentence>>,
    subject: Option<SpecPhrase>,
    verb_parser: SpecVerbParser,
    verbs: Seq<SpecVerb>,
    apposition: Option<Box<SpecSentence>>,
    t: SpecTokenWithLocation,
)
    requires
        match context {
            Some(c) => sentence_wf(*c),
            None => true,
        },
        match subject {
            Some(x) => phrase_wf(x),
            None => true,
        },
        match apposition {
            Some(a) => sentence_wf(*a),
            None => true,
        },
        verbs_wf(verbs),
        phrases_wf(verb_parser.objects),
    ensures
        commit_sentence(context, subject, verb_parser, verbs, apposition, t) matches Ok(s)
            ==> sentence_wf(s),
{
    reveal(sentence_wf);
}

/// The parts of a sentence whose phrases are all finished have their phrases finished.
pub proof fn lemma_sentence_wf_parts(s: SpecSentence)
    requires
        sentence_wf(s),
    ensures
        s.context matches Some(c) ==> sentence_wf(*c),
        s.subject matches Some(x) ==> phrase_wf(x),
        s.predicate matches SpecPredicate::Verbed(vs) ==> verbs_wf(vs),
        s.predicate matches SpecPredicate::OrphanObjects(os) ==> phrases_wf(os),
        s.apposition matches Some(a) ==> sentence_wf(*a),
{
    reveal(sentence_wf);
}

proof fn lemma_predicate_step_wf(
    context: Option<Box<SpecSentence>>,
    subject: Option<SpecPhrase>,
    verbs: Seq<SpecVerb>,
    verb_parser: SpecVerbParser,
    t: SpecTokenWithLocation,
)
    requires
        match context {
            Some(c) => sentence_wf(*c),
            None => true,
        },
        match subject {
            Some(x) => phrase_wf(x),
            None => true,
        },
        verbs_wf(verbs),
        prepositions_wf(verb_parser.object_parser.prepositions),
        phrases_wf(verb_parser.objects),
    ensures
        predicate_step(context, subject, verbs, verb_parser, t) matches Ok(o) ==> match o {
            SpecSentenceOutput::Continues(q) => parser_wf(q),
            SpecSentenceOutput::Finished(s) => sentence_wf(s),
        },
{
    reveal_with_fuel(parser_wf, 2);
    lemma_commit_wf(context, subject, verb_parser, verbs, None, t);
    let c = t.token.content();
    if c != ":"@ && c != "."@ && c != "la"@ {
        let op = verb_parser.object_parser;
        lemma_phrase_step_wf(op, t);
        if let Ok((vp, v)) = verb_step(verb_parser, t) {
            if t.token.content() == "pa"@ {
                let v = v->Some_0;
                assert(verb_wf(v));
                assert forall|i: int| 0 <= i < verbs.push(v).len() implies verb_wf(
                    #[trigger] verbs.push(v)[i],
                ) by {
                    if i < verbs.len() {
                        assert(verbs.push(v)[i] == verbs[i]);
                    }
                }
            } else if let Ok((op2, Some(o))) = object_step(op, t) {
                assert(phrase_wf(o));
                let os = verb_parser.objects;
                assert forall|i: int| 0 <= i < os.push(o).len() implies phrase_wf(
                    #[trigger] os.push(o)[i],
                ) by {
                    if i < os.len() {
                        assert(os.push(o)[i] == os[i]);
                    }
                }
            }
        }
    }
}

/// Law: the sentence parser keeps only finished phrases, and every sentence it finishes
/// has every phrase finished, through its context and its apposition.
pub proof fn lemma_sentence_step_wf(p: SpecSentenceParser, t: SpecTokenWithLocation)
    requires
        parser_wf(p),
    ensures
        sentence_step(p, t) matches Ok(o) ==> match o {
            SpecSentenceOutput::Continues(q) => parser_wf(q),
            SpecSentenceOutput::Finished(s) => sentence_wf(s),
        },
    decreases p,
{
    reveal_with_fuel(parser_wf, 2);
    match p {
        SpecSentenceParser::ParsingSubject { context, subject_parser } => {
            lemma_predicate_step_wf(
                context,
                None,
                seq![],
                SpecVerbParser { object_parser: subject_parser, objects: seq![] },
                t,
            );
            lemma_phrase_step_wf(subject_parser, t);
        },
        SpecSentenceParser::ParsingPredicate {
            context,
            subject,
            verbs,
            verb_parser,
            apposition_parser,
        } => {
            match apposition_parser {
                Some(ap) => {
                    lemma_sentence_step_wf(*ap, t);
                    if let Ok(SpecSentenceOutput::Finished(a)) = sentence_step(*ap, t) {
                        lemma_commit_wf(context, subject, verb_parser, verbs, Some(Box::new(a)), t);
                    }
                },
                None => {
                    lemma_predicate_step_wf(context, subject, verbs, verb_parser, t);
                },
            }
        },
    }
}

/// Law: a parser that has read nothing keeps only finished phrases.
pub proof fn lemma_empty_parser_wf()
    ensures
        parser_wf(empty_sentence_parser()),
        sentence_is_empty(empty_sentence_parser()) is Ok,
{
}


/// The readings of the prepositional phrases of a list.
pub open spec fn prepositions_natural(ps: Seq<SpecPreposition>) -> Seq<Seq<char>> {
    ps.map_values(|p: SpecPreposition| preposition_natural(p))
}

/// The reading of a subject: its prepositional phrases, separated by spaces, a space, its
/// content phrase, and `⚬`.
pub open spec fn subject_natural(s: SpecPhrase) -> Seq<char> {
    join(prepositions_natural(s.prepositions), " "@) + " "@ + tree_natural(s.content) + "⚬"@
}

/// The reading of an object: its prepositional phrases, separated by spaces, a space, its
/// content phrase, `◯` and a space.
pub open spec fn object_natural(o: SpecPhrase) -> Seq<char> {
    join(prepositions_natural(o.prepositions), " "@) + " "@ + tree_natural(o.content) + "◯ "@
}

/// The readings of the objects of a list.
pub open spec fn objects_natural(os: Seq<SpecPhrase>) -> Seq<Seq<char>> {
    os.map_values(|o: SpecPhrase| object_natural(o))
}

/// The reading of a verb: its objects, its prepositional phrases and its content phrase,
/// separated by spaces, and `⚡`.
pub open spec fn verb_natural(v: SpecVerb) -> Seq<char> {
    join(objects_natural(v.objects), " "@) + " "@ + join(prepositions_natural(v.prepositions), " "@)
        + " "@ + tree_natural(v.content) + "⚡"@
}

/// The readings of the verbs of a list.
pub open spec fn verbs_natural(vs: Seq<SpecVerb>) -> Seq<Seq<char>> {
    vs.map_values(|v: SpecVerb| verb_natural(v))
}

/// The reading of a predicate: its verbs followed by `^`, or its objects followed by `*`.
pub open spec fn predicate_natural(p: SpecPredicate) -> Seq<char> {
    match p {
        SpecPredicate::Verbed(vs) => join(verbs_natural(vs), " "@) + "^"@,
        SpecPredicate::OrphanObjects(os) => join(objects_natural(os), " "@) + "*"@,
    }
}

/// The reading of a sentence: its context followed by ` | `, a space, its subject, a
/// space, its predicate, ` : ` and its apposition, and `+§` where it has a subject or
/// `-§` where it has none.
pub open spec fn sentence_natural(s: SpecSentence) -> Seq<char>
    decreases s,
{
    let context = match s.context {
        Some(c) => sentence_natural(*c) + " | "@,
        None => seq![],
    };
    let subject = match s.subject {
        Some(x) => subject_natural(x),
        None => seq![],
    };
    let apposition = match s.apposition {
        Some(a) => " : "@ + sentence_natural(*a),
        None => seq![],
    };
    let ending = if s.subject is Some {
        "+§"@
    } else {
        "-§"@
    };
    context + " "@ + subject + " "@ + predicate_natural(s.predicate) + apposition + ending
}

fn preposition_naturals(v: &Vec<Preposition>) -> (r: Vec<String>)
    ensures
        strings_view(r@) == prepositions_natural(prepositions_view(v@)),
{
    let mut r: Vec<String> = Vec::new();
    let mut i: usize = 0;
    while i < v.len()
        invariant
            i <= v@.len(),
            r@.len() == i,
            forall|j: int| 0 <= j < i ==> (#[trigger] r@[j])@ == preposition_natural(v@[j]@),
        decreases v@.len() - i,
    {
        r.push(v[i].as_natural());
        i = i + 1;
    }
    assert(strings_view(r@) =~= prepositions_natural(prepositions_view(v@)));
    r
}

fn object_naturals(v: &Vec<Object>) -> (r: Vec<String>)
    ensures
        strings_view(r@) == objects_natural(objects_view(v@)),
{
    let mut r: Vec<String> = Vec::new();
    let mut i: usize = 0;
    while i < v.len()
        invariant
            i <= v@.len(),
            r@.len() == i,
            forall|j: int| 0 <= j < i ==> (#[trigger] r@[j])@ == object_natural(v@[j]@),
        decreases v@.len() - i,
    {
        r.push(v[i].as_natural());
        i = i + 1;
    }
    assert(strings_view(r@) =~= objects_natural(objects_view(v@)));
    r
}

fn verb_naturals(v: &Vec<Verb>) -> (r: Vec<String>)
    ensures
        strings_view(r@) == verbs_natural(verbs_view(v@)),
{
    let mut r: Vec<String> = Vec::new();
    let mut i: usize = 0;
    while i < v.len()
        invariant
            i <= v@.len(),
            r@.len() == i,
            forall|j: int| 0 <= j < i ==> (#[trigger] r@[j])@ == verb_natural(v@[j]@),
        decreases v@.len() - i,
    {
        r.push(v[i].as_natural());
        i = i + 1;
    }
    assert(strings_view(r@) =~= verbs_natural(verbs_view(v@)));
    r
}

impl Natural for Subject {
    open spec fn natural(&self) -> Seq<char> {
        subject_natural(self@)
    }

    fn as_natural(&self) -> (r: String) {
        let parts = preposition_naturals(&self.prepositions);
        let mut r = join_strings(&parts, " ");
        r.append(" ");
        let c = self.content.as_natural();
        r.append(c.as_str());
        r.append("⚬");
        r
    }
}

impl Natural for Object {
    open spec fn natural(&self) -> Seq<char> {
        object_natural(self@)
    }

    fn as_natural(&self) -> (r: String) {
        let parts = preposition_naturals(&self.prepositions);
        let mut r = join_strings(&parts, " ");
        r.append(" ");
        let c = self.content.as_natural();
        r.append(c.as_str());
        r.append("◯ ");
        r
    }
}

impl Natural for Verb {
    open spec fn natural(&self) -> Seq<char> {
        verb_natural(self@)
    }

    fn as_natural(&self) -> (r: String) {
        let objects = object_naturals(&self.objects);
        let prepositions = preposition_naturals(&self.prepositions);
        let mut r = join_strings(&objects, " ");
        r.append(" ");
        let p = join_strings(&prepositions, " ");
        r.append(p.as_str());
        r.append(" ");
        let c = self.content.as_natural();
        r.append(c.as_str());
        r.append("⚡");
        r
    }
}

impl Natural for PredicateType {
    open spec fn natural(&self) -> Seq<char> {
        predicate_natural(self@)
    }

    fn as_natural(&self) -> (r: String) {
        match self {
            PredicateType::Verbed(verbs) => {
                let parts = verb_naturals(verbs);
                let mut r = join_strings(&parts, " ");
                r.append("^");
                r
            },
            PredicateType::OrphanObjects(objects) => {
                let parts = object_naturals(objects);
                let mut r = join_strings(&parts, " ");
                r.append("*");
                r
            },
        }
    }
}

impl Natural for Sentence {
    open spec fn natural(&self) -> Seq<char> {
        sentence_natural(self@)
    }

    fn as_natural(&self) -> (r: String)
        decreases self,
    {
        let mut r = String::new();
        match &self.context {
            Some(context) => {
                let c = (**context).as_natural();
                r.append(c.as_str());
                r.append(" | ");
            },
            None => {},
        }
        r.append(" ");
        match &self.subject {
            Some(subject) => {
                let s = subject.as_natural();
                r.append(s.as_str());
            },
            None => {},
        }
        r.append(" ");
        let p = self.predicate.as_natural();
        r.append(p.as_str());
        match &self.apposition {
            Some(apposition) => {
                r.append(" : ");
                let a = (**apposition).as_natural();
                r.append(a.as_str());
            },
            None => {},
        }
        if self.subject.is_some() {
            r.append("+§");
        } else {
            r.append("-§");
        }
        assert(r@ =~= sentence_natural(self@));
        r
    }
}

} // verus!
