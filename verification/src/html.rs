//! Rendering parsed sentences as HTML markup.
use vstd::prelude::*;
use vstd::string::StringExecFns;

use crate::content::{contents, BranchType, ContentTree, LeafType, SpecLeaf, SpecTree};
use crate::preposition::{Preposition, PrepositionType, SpecPreposition};
use crate::sentence::{
    phrase_wf, prepositions_view, prepositions_wf, sentence_wf, verb_wf, Object, PredicateType,
    Sentence, SpecPhrase, SpecPredicate, SpecSentence, SpecVerb, Subject, Verb,
};
use crate::text::join;

verus! {

/// What a leaf needs to know to render: whether it stands negated.
pub struct LeafState {
    pub negated: bool,
}

/// The role in which a sentence is rendered inside another.
#[derive(Clone, Copy, PartialEq, Eq, Structural)]
pub enum SentenceHTMLContext {
    Context,
    Apposition,
}

/// A value that renders as HTML, given what its container tells it.
pub trait AsHtml {
    type Context;

    /// Whether the value can be rendered with the given context.
    spec fn renders(&self, context: Option<Self::Context>) -> bool;

    /// The markup of the value.
    spec fn html(&self, context: Option<Self::Context>) -> Seq<char>;

    /// Appends the markup of the value to `output`.
    fn write_html(&self, output: &mut String, context: Option<Self::Context>)
        requires
            self.renders(context),
        ensures
            final(output)@ == old(output)@ + self.html(context),
    ;
}

/// All the parts, one after the other.
pub open spec fn concat(parts: Seq<Seq<char>>) -> Seq<char> {
    join(parts, seq![])
}

/// The markup of a leaf: a `contentleaf` element, marked negated where it is, holding the
/// leaf's words written together.
pub open spec fn leaf_html(l: SpecLeaf, negated: bool) -> Seq<char> {
    let open = if negated {
        "<contentleaf type=\"negated\">"@
    } else {
        "<contentleaf>"@
    };
    let words = match l {
        SpecLeaf::Literal(ts) => concat(contents(ts)),
        SpecLeaf::Core(t) => t.content(),
    };
    open + words + "</contentleaf>"@
}

/// The markup of a finished tree: each branch renders its tail, in an element named by
/// the branch where it has one, and then its head; a glue branch wraps both.
pub open spec fn tree_html(t: SpecTree) -> Seq<char>
    decreases t,
{
    match t {
        SpecTree::Terminal => seq![],
        SpecTree::Leaf(l) => leaf_html(l, false),
        SpecTree::Branch { branch_type, head, tail } => match branch_type {
            BranchType::Concatenation => tree_html(*tail) + tree_html(*head),
            BranchType::Property => "<property>"@ + tree_html(*tail) + "</property>"@ + tree_html(
                *head,
            ),
            BranchType::InnerGlue => "<glue>"@ + "<gluetail>"@ + tree_html(*tail)
                + "</gluetail>"@ + "<gluehead>"@ + tree_html(*head) + "</gluehead>"@ + "</glue>"@,
            BranchType::Union => "<union>"@ + tree_html(*tail) + "</union>"@ + tree_html(*head),
            BranchType::Alternative => "<alternative>"@ + tree_html(*tail) + "</alternative>"@
                + tree_html(*head),
        },
    }
}

/// The name of a preposition in markup.
pub open spec fn preposition_type_name(k: PrepositionType) -> Seq<char> {
    match k {
        PrepositionType::Direction => "direction"@,
        PrepositionType::Origin => "origin"@,
        PrepositionType::Using => "using"@,
        PrepositionType::Location => "location"@,
        PrepositionType::Metacommentary => "metacommentary"@,
        PrepositionType::Manner => "manner"@,
    }
}

/// Law: different kinds of preposition have different names in markup, and each particle's
/// preposition is marked with the name of what it means: `ta` as direction, `na` as origin,
/// `ki` as using, `lo` as location, `lu` as metacommentary and `sa` as manner.
pub proof fn lemma_preposition_names(k1: PrepositionType, k2: PrepositionType)
    ensures
        preposition_type_name(k1) == preposition_type_name(k2) ==> k1 == k2,
        preposition_type_name(crate::preposition::preposition_kind("ta"@)->Some_0)
            == "direction"@,
        preposition_type_name(crate::preposition::preposition_kind("na"@)->Some_0) == "origin"@,
        preposition_type_name(crate::preposition::preposition_kind("ki"@)->Some_0) == "using"@,
        preposition_type_name(crate::preposition::preposition_kind("lo"@)->Some_0)
            == "location"@,
        preposition_type_name(crate::preposition::preposition_kind("lu"@)->Some_0)
            == "metacommentary"@,
        preposition_type_name(crate::preposition::preposition_kind("sa"@)->Some_0) == "manner"@,
{
    reveal_strlit("ta");
    reveal_strlit("na");
    reveal_strlit("ki");
    reveal_strlit("lo");
    reveal_strlit("lu");
    reveal_strlit("sa");
    reveal_strlit("direction");
    reveal_strlit("origin");
    reveal_strlit("using");
    reveal_strlit("location");
    reveal_strlit("metacommentary");
    reveal_strlit("manner");
    assert("na"@ != "ta"@) by { assert("na"@[0] != "ta"@[0]); }
    assert("ki"@ != "ta"@ && "ki"@ != "na"@) by {
        assert("ki"@[0] != "ta"@[0] && "ki"@[0] != "na"@[0]);
    }
    assert("lo"@ != "ta"@ && "lo"@ != "na"@ && "lo"@ != "ki"@) by {
        assert("lo"@[0] != "ta"@[0] && "lo"@[0] != "na"@[0] && "lo"@[0] != "ki"@[0]);
    }
    assert("lu"@ != "ta"@ && "lu"@ != "na"@ && "lu"@ != "ki"@ && "lu"@ != "lo"@) by {
        assert("lu"@[0] != "ta"@[0] && "lu"@[0] != "na"@[0] && "lu"@[0] != "ki"@[0]);
        assert("lu"@[1] != "lo"@[1]);
    }
    assert("sa"@ != "ta"@ && "sa"@ != "na"@ && "sa"@ != "ki"@ && "sa"@ != "lo"@ && "sa"@
        != "lu"@) by {
        assert("sa"@[0] != "ta"@[0] && "sa"@[0] != "na"@[0] && "sa"@[0] != "ki"@[0]);
        assert("sa"@[0] != "lo"@[0] && "sa"@[0] != "lu"@[0]);
    }
    if preposition_type_name(k1) == preposition_type_name(k2) && k1 != k2 {
        let a = preposition_type_name(k1);
        let b = preposition_type_name(k2);
        assert(a.len() != b.len() || a[0] != b[0] || a[1] != b[1]);
    }
}

/// The markup of a prepositional phrase.
pub open spec fn preposition_html(p: SpecPreposition) -> Seq<char> {
    "<preposition type=\""@ + preposition_type_name(p.preposition_type) + "\">"@ + tree_html(
        p.content,
    ) + "</preposition>"@
}

/// The markup of the prepositional phrases of a list, one after the other.
pub open spec fn prepositions_html(ps: Seq<SpecPreposition>) -> Seq<char> {
    concat(ps.map_values(|p: SpecPreposition| preposition_html(p)))
}

/// The markup of a subject or an object, in an element of the given name.
pub open spec fn phrase_html(tag: Seq<char>, p: SpecPhrase) -> Seq<char> {
    "<"@ + tag + ">"@ + prepositions_html(p.prepositions) + tree_html(p.content) + "</"@ + tag
        + ">"@
}

/// The markup of the objects of a list, one after the other.
pub open spec fn objects_html(os: Seq<SpecPhrase>) -> Seq<char> {
    concat(os.map_values(|o: SpecPhrase| phrase_html("object"@, o)))
}

/// The markup of a verb: its objects, its prepositional phrases and its content phrase.
pub open spec fn verb_html(v: SpecVerb) -> Seq<char> {
    "<verb>"@ + objects_html(v.objects) + prepositions_html(v.prepositions) + tree_html(v.content)
        + "</verb>"@
}

/// The markup of the verbs of a list, one after the other.
pub open spec fn verbs_html(vs: Seq<SpecVerb>) -> Seq<char> {
    concat(vs.map_values(|v: SpecVerb| verb_html(v)))
}

/// The opening tag of a sentence in the given role.
pub open spec fn sentence_open(role: Option<SentenceHTMLContext>) -> Seq<char> {
    match role {
        Some(SentenceHTMLContext::Context) => "<sentence role=\"context\">"@,
        Some(SentenceHTMLContext::Apposition) => "<sentence role=\"apposition\">"@,
        None => "<sentence>"@,
    }
}

/// The markup of a predicate: its verbs or its objects, one after the other.
pub open spec fn predicate_html(p: SpecPredicate) -> Seq<char> {
    match p {
        SpecPredicate::Verbed(vs) => verbs_html(vs),
        SpecPredicate::OrphanObjects(os) => objects_html(os),
    }
}

/// The markup of an optional subject.
pub open spec fn subject_part_html(o: Option<SpecPhrase>) -> Seq<char> {
    match o {
        Some(x) => phrase_html("subject"@, x),
        None => seq![],
    }
}

/// The markup of a sentence in the given role: its context, its subject, its predicate
/// and its apposition, in a `sentence` element.
#[verifier::opaque]
pub open spec fn sentence_html(s: SpecSentence, role: Option<SentenceHTMLContext>) -> Seq<char>
    decreases s,
{
    let context = match s.context {
        Some(c) => sentence_html(*c, Some(SentenceHTMLContext::Context)),
        None => seq![],
    };
    let apposition = match s.apposition {
        Some(a) => sentence_html(*a, Some(SentenceHTMLContext::Apposition)),
        None => seq![],
    };
    sentence_open(role) + context + subject_part_html(s.subject) + predicate_html(s.predicate)
        + apposition + "</sentence>"@
}

proof fn lemma_concat_push(parts: Seq<Seq<char>>, x: Seq<char>)
    ensures
        concat(parts.push(x)) == concat(parts) + x,
{
    assert(parts.push(x).drop_last() =~= parts);
    if parts.len() == 0 {
        assert(concat(parts) =~= seq![]);
        assert(concat(parts.push(x)) =~= x);
    } else {
        assert(concat(parts.push(x)) =~= concat(parts) + seq![] + x);
    }
}

impl AsHtml for LeafType {
    type Context = LeafState;

    open spec fn renders(&self, context: Option<LeafState>) -> bool {
        context is Some
    }

    open spec fn html(&self, context: Option<LeafState>) -> Seq<char> {
        leaf_html(self@, context->Some_0.negated)
    }

    fn write_html(&self, output: &mut String, context: Option<LeafState>) {
        let negated = match context {
            Some(state) => state.negated,
            None => false,
        };
        if negated {
            output.append("<contentleaf type=\"negated\">");
        } else {
            output.append("<contentleaf>");
        }
        match self {
            LeafType::Literal(tokens) => {
                let ghost start = output@;
                let ghost parts = contents(crate::content::tokens_view(tokens@));
                let mut i: usize = 0;
                assert(parts.take(0) =~= seq![]);
                while i < tokens.len()
                    invariant
                        i <= tokens@.len(),
                        parts == contents(crate::content::tokens_view(tokens@)),
                        output@ == start + concat(parts.take(i as int)),
                    decreases tokens@.len() - i,
                {
                    output.append(tokens[i].content());
                    proof {
                        lemma_concat_push(parts.take(i as int), parts[i as int]);
                        assert(parts.take(i + 1) =~= parts.take(i as int).push(parts[i as int]));
                    }
                    i = i + 1;
                }
                assert(parts.take(tokens@.len() as int) =~= parts);
            },
            LeafType::Core(token) => {
                output.append(token.content());
            },
        }
        output.append("</contentleaf>");
    }
}

impl AsHtml for ContentTree {
    type Context = ();

    open spec fn renders(&self, context: Option<()>) -> bool {
        self@.is_valid()
    }

    open spec fn html(&self, context: Option<()>) -> Seq<char> {
        tree_html(self@)
    }

    fn write_html(&self, output: &mut String, context: Option<()>)
        decreases self,
    {
        match self {
            ContentTree::Terminal => {},
            ContentTree::Leaf(leaf) => {
                leaf.write_html(output, Some(LeafState { negated: false }));
            },
            ContentTree::Branch { branch_type, head, tail } => {
                match branch_type {
                    BranchType::Concatenation => {
                        tail.write_html(output, None);
                        head.write_html(output, None);
                    },
                    BranchType::Property => {
                        output.append("<property>");
                        tail.write_html(output, None);
                        output.append("</property>");
                        head.write_html(output, None);
                    },
                    BranchType::InnerGlue => {
                        output.append("<glue>");
                        output.append("<gluetail>");
                        tail.write_html(output, None);
                        output.append("</gluetail>");
                        output.append("<gluehead>");
                        head.write_html(output, None);
                        output.append("</gluehead>");
                        output.append("</glue>");
                    },
                    BranchType::Union => {
                        output.append("<union>");
                        tail.write_html(output, None);
                        output.append("</union>");
                        head.write_html(output, None);
                    },
                    BranchType::Alternative => {
                        output.append("<alternative>");
                        tail.write_html(output, None);
                        output.append("</alternative>");
                        head.write_html(output, None);
                    },
                }
            },
        }
    }
}


impl PrepositionType {
    /// The name of the preposition in markup.
    pub fn html_name(&self) -> (r: &'static str)
        ensures
            r@ == preposition_type_name(*self),
    {
        match self {
            PrepositionType::Direction => "direction",
            PrepositionType::Origin => "origin",
            PrepositionType::Using => "using",
            PrepositionType::Location => "location",
            PrepositionType::Metacommentary => "metacommentary",
            PrepositionType::Manner => "manner",
        }
    }
}

impl AsHtml for Preposition {
    type Context = ();

    open spec fn renders(&self, context: Option<()>) -> bool {
        self@.content.is_valid()
    }

    open spec fn html(&self, context: Option<()>) -> Seq<char> {
        preposition_html(self@)
    }

    fn write_html(&self, output: &mut String, context: Option<()>) {
        output.append("<preposition type=\"");
        output.append(self.preposition_type.html_name());
        output.append("\">");
        self.content.write_html(output, None);
        output.append("</preposition>");
    }
}

fn write_prepositions(output: &mut String, ps: &Vec<Preposition>)
    requires
        prepositions_wf(prepositions_view(ps@)),
    ensures
        final(output)@ == old(output)@ + prepositions_html(prepositions_view(ps@)),
{
    let ghost start = output@;
    let ghost parts = prepositions_view(ps@).map_values(|p: SpecPreposition| preposition_html(p));
    let mut i: usize = 0;
    assert(parts.take(0) =~= seq![]);
    while i < ps.len()
        invariant
            i <= ps@.len(),
            prepositions_wf(prepositions_view(ps@)),
            parts == prepositions_view(ps@).map_values(|p: SpecPreposition| preposition_html(p)),
            output@ == start + concat(parts.take(i as int)),
        decreases ps@.len() - i,
    {
        assert(prepositions_view(ps@)[i as int].content.is_valid());
        ps[i].write_html(output, None);
        proof {
            lemma_concat_push(parts.take(i as int), parts[i as int]);
            assert(parts.take(i + 1) =~= parts.take(i as int).push(parts[i as int]));
        }
        i = i + 1;
    }
    assert(parts.take(ps@.len() as int) =~= parts);
}

impl AsHtml for Subject {
    type Context = ();

    open spec fn renders(&self, context: Option<()>) -> bool {
        phrase_wf(self@)
    }

    open spec fn html(&self, context: Option<()>) -> Seq<char> {
        phrase_html("subject"@, self@)
    }

    fn write_html(&self, output: &mut String, context: Option<()>) {
        output.append("<subject>");
        write_prepositions(output, &self.prepositions);
        self.content.write_html(output, None);
        output.append("</subject>");
        proof {
            reveal_strlit("subject");
            reveal_strlit("<subject>");
            reveal_strlit("</subject>");
            reveal_strlit("<");
            reveal_strlit(">");
            reveal_strlit("</");
        }
    }
}

impl AsHtml for Object {
    type Context = ();

    open spec fn renders(&self, context: Option<()>) -> bool {
        phrase_wf(self@)
    }

    open spec fn html(&self, context: Option<()>) -> Seq<char> {
        phrase_html("object"@, self@)
    }

    fn write_html(&self, output: &mut String, context: Option<()>) {
        output.append("<object>");
        write_prepositions(output, &self.prepositions);
        self.content.write_html(output, None);
        output.append("</object>");
        proof {
            reveal_strlit("object");
            reveal_strlit("<object>");
            reveal_strlit("</object>");
            reveal_strlit("<");
            reveal_strlit(">");
            reveal_strlit("</");
        }
    }
}

fn write_objects(output: &mut String, os: &Vec<Object>)
    requires
        forall|i: int| 0 <= i < os@.len() ==> phrase_wf(#[trigger] os@[i]@),
    ensures
        final(output)@ == old(output)@ + objects_html(crate::sentence::objects_view(os@)),
{
    let ghost start = output@;
    let ghost parts = crate::sentence::objects_view(os@).map_values(
        |o: SpecPhrase| phrase_html("object"@, o),
    );
    let mut i: usize = 0;
    assert(parts.take(0) =~= seq![]);
    while i < os.len()
        invariant
            i <= os@.len(),
            forall|i: int| 0 <= i < os@.len() ==> phrase_wf(#[trigger] os@[i]@),
            parts == crate::sentence::objects_view(os@).map_values(
                |o: SpecPhrase| phrase_html("object"@, o),
            ),
            output@ == start + concat(parts.take(i as int)),
        decreases os@.len() - i,
    {
        os[i].write_html(output, None);
        proof {
            lemma_concat_push(parts.take(i as int), parts[i as int]);
            assert(parts.take(i + 1) =~= parts.take(i as int).push(parts[i as int]));
        }
        i = i + 1;
    }
    assert(parts.take(os@.len() as int) =~= parts);
}

impl AsHtml for Verb {
    type Context = ();

    open spec fn renders(&self, context: Option<()>) -> bool {
        verb_wf(self@)
    }

    open spec fn html(&self, context: Option<()>) -> Seq<char> {
        verb_html(self@)
    }

    fn write_html(&self, output: &mut String, context: Option<()>) {
        output.append("<verb>");
        assert forall|i: int| 0 <= i < self.objects@.len() implies phrase_wf(
            #[trigger] self.objects@[i]@,
        ) by {
            assert(crate::sentence::objects_view(self.objects@)[i] == self.objects@[i]@);
        }
        write_objects(output, &self.objects);
        write_prepositions(output, &self.prepositions);
        self.content.write_html(output, None);
        output.append("</verb>");
    }
}

fn write_verbs(output: &mut String, vs: &Vec<Verb>)
    requires
        forall|i: int| 0 <= i < vs@.len() ==> verb_wf(#[trigger] vs@[i]@),
    ensures
        final(output)@ == old(output)@ + verbs_html(crate::sentence::verbs_view(vs@)),
{
    let ghost start = output@;
    let ghost parts = crate::sentence::verbs_view(vs@).map_values(|v: SpecVerb| verb_html(v));
    let mut i: usize = 0;
    assert(parts.take(0) =~= seq![]);
    while i < vs.len()
        invariant
            i <= vs@.len(),
            forall|i: int| 0 <= i < vs@.len() ==> verb_wf(#[trigger] vs@[i]@),
            parts == crate::sentence::verbs_view(vs@).map_values(|v: SpecVerb| verb_html(v)),
            output@ == start + concat(parts.take(i as int)),
        decreases vs@.len() - i,
    {
        vs[i].write_html(output, None);
        proof {
            lemma_concat_push(parts.take(i as int), parts[i as int]);
            assert(parts.take(i + 1) =~= parts.take(i as int).push(parts[i as int]));
        }
        i = i + 1;
    }
    assert(parts.take(vs@.len() as int) =~= parts);
}

impl AsHtml for Sentence {
    type Context = SentenceHTMLContext;

    open spec fn renders(&self, context: Option<SentenceHTMLContext>) -> bool {
        sentence_wf(self@)
    }

    open spec fn html(&self, context: Option<SentenceHTMLContext>) -> Seq<char> {
        sentence_html(self@, context)
    }

    #[verifier::spinoff_prover]
    fn write_html(&self, output: &mut String, context: Option<SentenceHTMLContext>)
        decreases self,
    {
        let ghost start = output@;
        let ghost sv = self@;
        proof {
            crate::sentence::lemma_sentence_wf_parts(sv);
        }
        match context {
            Some(SentenceHTMLContext::Context) => output.append("<sentence role=\"context\">"),
            Some(SentenceHTMLContext::Apposition) => output.append(
                "<sentence role=\"apposition\">",
            ),
            None => output.append("<sentence>"),
        }
        let ghost p0 = sentence_open(context);
        let ghost p1 = p0 + inner_sentence_html(sv.context, SentenceHTMLContext::Context);
        let ghost p2 = p1 + subject_part_html(sv.subject);
        let ghost p3 = p2 + predicate_html(sv.predicate);
        let ghost p4 = p3 + inner_sentence_html(sv.apposition, SentenceHTMLContext::Apposition);
        let ghost p5 = p4 + "</sentence>"@;
        assert(output@ == start + p0);
        write_inner_sentence(output, &self.context, SentenceHTMLContext::Context);
        assert(output@ =~= start + p1);
        write_subject(output, &self.subject);
        assert(output@ =~= start + p2);
        write_predicate(output, &self.predicate);
        assert(output@ =~= start + p3);
        write_inner_sentence(output, &self.apposition, SentenceHTMLContext::Apposition);
        assert(output@ =~= start + p4);
        output.append("</sentence>");
        assert(output@ =~= start + p5);
        proof {
            lemma_sentence_html(sv, context);
        }
    }
}

proof fn lemma_sentence_html(s: SpecSentence, role: Option<SentenceHTMLContext>)
    ensures
        sentence_html(s, role) == sentence_open(role) + inner_sentence_html(
            s.context,
            SentenceHTMLContext::Context,
        ) + subject_part_html(s.subject) + predicate_html(s.predicate) + inner_sentence_html(
            s.apposition,
            SentenceHTMLContext::Apposition,
        ) + "</sentence>"@,
{
    reveal(sentence_html);
}

/// The markup of an optional inner sentence in the given role.
pub open spec fn inner_sentence_html(o: Option<Box<SpecSentence>>, role: SentenceHTMLContext) -> Seq<char> {
    match o {
        Some(a) => sentence_html(*a, Some(role)),
        None => seq![],
    }
}

fn write_inner_sentence(output: &mut String, inner: &Option<Box<Sentence>>, role: SentenceHTMLContext)
    requires
        match inner {
            Some(a) => sentence_wf((**a)@),
            None => true,
        },
    ensures
        final(output)@ == old(output)@ + inner_sentence_html(crate::sentence::opt_sentence_view(*inner), role),
    decreases inner,
{
    if let Some(a) = inner {
        (**a).write_html(output, Some(role));
    }
}

fn write_subject(output: &mut String, subject: &Option<Subject>)
    requires
        match subject {
            Some(x) => phrase_wf(x@),
            None => true,
        },
    ensures
        final(output)@ == old(output)@ + subject_part_html(crate::sentence::opt_subject_view(*subject)),
{
    if let Some(x) = subject {
        x.write_html(output, None);
    }
}

fn write_predicate(output: &mut String, predicate: &PredicateType)
    requires
        match predicate@ {
            SpecPredicate::Verbed(vs) => crate::sentence::verbs_wf(vs),
            SpecPredicate::OrphanObjects(os) => crate::sentence::phrases_wf(os),
        },
    ensures
        final(output)@ == old(output)@ + predicate_html(predicate@),
{
    match predicate {
        PredicateType::Verbed(verbs) => {
            assert forall|i: int| 0 <= i < verbs@.len() implies verb_wf(#[trigger] verbs@[i]@) by {
                assert(crate::sentence::verbs_view(verbs@)[i] == verbs@[i]@);
            }
            write_verbs(output, verbs);
        },
        PredicateType::OrphanObjects(objects) => {
            assert forall|i: int| 0 <= i < objects@.len() implies phrase_wf(
                #[trigger] objects@[i]@,
            ) by {
                assert(crate::sentence::objects_view(objects@)[i] == objects@[i]@);
            }
            write_objects(output, objects);
        },
    }
}

} // verus!
