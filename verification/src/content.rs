//! Content phrases: the head-final tree that words, `pi`, `no`, `un` and `nu` build.
use vstd::prelude::*;

use vstd::string::StringExecFns;

use crate::text::{join, join_strings, owned, str_eq, str_to_uppercase, upper_case};
use crate::tokens::{SpecToken, SpecTokenWithLocation, Token, TokenWithLocation};
use crate::Natural;

verus! {

/// A leaf of a content tree, as values.
pub enum SpecLeaf {
    Literal(Seq<SpecToken>),
    Core(SpecToken),
}

/// A content tree, as values.
pub enum SpecTree {
    Terminal,
    Leaf(SpecLeaf),
    Branch { branch_type: BranchType, head: Box<SpecTree>, tail: Box<SpecTree> },
}

/// A leaf: a run of upper-case literal words, or one content word.
#[derive(Debug)]
pub enum LeafType {
    Literal(Vec<Token>),
    Core(Token),
}

/// How the head of a branch relates to its tail.
#[derive(Debug, Clone, Copy, PartialEq, Eq, Structural)]
pub enum BranchType {
    Concatenation,
    Property,
    InnerGlue,
    Union,
    Alternative,
}

/// A content phrase. `Terminal` stands for a place that no word has filled yet; in a
/// branch, the head is the word or phrase that the tail modifies.
#[derive(Debug)]
pub enum ContentTree {
    Terminal,
    Leaf(LeafType),
    Branch { branch_type: BranchType, head: Box<ContentTree>, tail: Box<ContentTree> },
}

/// The tokens of a vector, as values.
pub open spec fn tokens_view(v: Seq<Token>) -> Seq<SpecToken> {
    v.map_values(|t: Token| t@)
}

impl View for LeafType {
    type V = SpecLeaf;

    open spec fn view(&self) -> SpecLeaf {
        match self {
            LeafType::Literal(ts) => SpecLeaf::Literal(tokens_view(ts@)),
            LeafType::Core(t) => SpecLeaf::Core(t@),
        }
    }
}

impl ContentTree {
    /// The tree as values.
    pub open spec fn model(self) -> SpecTree
        decreases self,
    {
        match self {
            ContentTree::Terminal => SpecTree::Terminal,
            ContentTree::Leaf(l) => SpecTree::Leaf(l@),
            ContentTree::Branch { branch_type, head, tail } => SpecTree::Branch {
                branch_type,
                head: Box::new((*head).model()),
                tail: Box::new((*tail).model()),
            },
        }
    }
}

impl View for ContentTree {
    type V = SpecTree;

    open spec fn view(&self) -> SpecTree {
        self.model()
    }
}

impl SpecTree {
    /// A finished phrase: no place is left unfilled. A `Terminal` alone is not one, and
    /// no branch has an unfilled head.
    pub open spec fn is_valid(self) -> bool
        decreases self,
    {
        match self {
            SpecTree::Terminal => false,
            SpecTree::Leaf(_) => true,
            SpecTree::Branch { head, tail, .. } => !(*head is Terminal) && (*head).is_valid()
                && (*tail).is_valid(),
        }
    }
}

/// Why a content phrase could not be read, as values.
pub enum SpecContentError {
    NotPlainToken(SpecTokenWithLocation),
    GlueWithoutBranch(SpecTokenWithLocation),
    PropertyOfNothing(SpecTokenWithLocation),
    AlternativeOfNothing(SpecTokenWithLocation),
    UnionOfNothing(SpecTokenWithLocation),
    InvalidTreeStructure(SpecTree),
    ErrorInString {
        remainder: Seq<SpecTokenWithLocation>,
        inner: Box<SpecContentError>,
        state: SpecTree,
    },
    NotEmpty(SpecTree),
}

/// Why a content phrase could not be read.
#[derive(Debug)]
pub enum ContentParseError {
    NotPlainToken(TokenWithLocation),
    GlueWithoutBranch(TokenWithLocation),
    PropertyOfNothing(TokenWithLocation),
    AlternativeOfNothing(TokenWithLocation),
    UnionOfNothing(TokenWithLocation),
    InvalidTreeStructure(ContentTree),
    ErrorInString {
        remainder: Vec<TokenWithLocation>,
        inner: Box<ContentParseError>,
        state: ContentTree,
    },
    NotEmpty(ContentTree),
}

/// The located tokens of a vector, as values.
pub open spec fn located_tokens_view(v: Seq<TokenWithLocation>) -> Seq<SpecTokenWithLocation> {
    v.map_values(|t: TokenWithLocation| t@)
}

/// The value of a content error.
pub open spec fn content_error_view(e: &ContentParseError) -> SpecContentError
    decreases e,
{
    match e {
        ContentParseError::NotPlainToken(t) => SpecContentError::NotPlainToken(t@),
        ContentParseError::GlueWithoutBranch(t) => SpecContentError::GlueWithoutBranch(t@),
        ContentParseError::PropertyOfNothing(t) => SpecContentError::PropertyOfNothing(t@),
        ContentParseError::AlternativeOfNothing(t) => SpecContentError::AlternativeOfNothing(t@),
        ContentParseError::UnionOfNothing(t) => SpecContentError::UnionOfNothing(t@),
        ContentParseError::InvalidTreeStructure(t) => SpecContentError::InvalidTreeStructure(t@),
        ContentParseError::ErrorInString { remainder, inner, state } => {
            SpecContentError::ErrorInString {
                remainder: located_tokens_view(remainder@),
                inner: Box::new(content_error_view(inner)),
                state: state@,
            }
        },
        ContentParseError::NotEmpty(t) => SpecContentError::NotEmpty(t@),
    }
}

impl View for ContentParseError {
    type V = SpecContentError;

    open spec fn view(&self) -> SpecContentError {
        content_error_view(self)
    }
}

/// A word is literal where upper-casing leaves it as it is.
pub open spec fn is_literal_word(data: Seq<char>) -> bool {
    upper_case(data) == data
}

/// What a plain word does to a content phrase.
#[derive(Clone, Copy, PartialEq, Eq, Structural)]
pub enum WordKind {
    /// `un`: what follows is joined to what came before.
    Union,
    /// `nu`: what follows is an alternative to what came before.
    Alternative,
    /// `pi`: what follows becomes the head, what came before its property.
    Property,
    /// `no`: the current head becomes the tail of a new inner head.
    Glue,
    /// A content word; `true` where it is literal.
    Word(bool),
}

/// The kind of a plain word.
pub open spec fn word_kind(data: Seq<char>) -> WordKind {
    if data == "un"@ {
        WordKind::Union
    } else if data == "nu"@ {
        WordKind::Alternative
    } else if data == "pi"@ {
        WordKind::Property
    } else if data == "no"@ {
        WordKind::Glue
    } else {
        WordKind::Word(is_literal_word(data))
    }
}

/// The tree after a content word `tok`: the word fills the innermost head. A literal
/// word after a run of literal words joins the run.
pub open spec fn grow_tree(tree: SpecTree, tok: SpecToken, literal: bool) -> SpecTree
    decreases tree,
{
    match tree {
        SpecTree::Terminal => if literal {
            SpecTree::Leaf(SpecLeaf::Literal(seq![tok]))
        } else {
            SpecTree::Leaf(SpecLeaf::Core(tok))
        },
        SpecTree::Leaf(SpecLeaf::Literal(ts)) => if literal {
            SpecTree::Leaf(SpecLeaf::Literal(ts.push(tok)))
        } else {
            SpecTree::Branch {
                branch_type: BranchType::Concatenation,
                head: Box::new(SpecTree::Leaf(SpecLeaf::Core(tok))),
                tail: Box::new(tree),
            }
        },
        SpecTree::Leaf(SpecLeaf::Core(_)) => if literal {
            SpecTree::Branch {
                branch_type: BranchType::Concatenation,
                head: Box::new(SpecTree::Leaf(SpecLeaf::Literal(seq![tok]))),
                tail: Box::new(tree),
            }
        } else {
            SpecTree::Branch {
                branch_type: BranchType::Concatenation,
                head: Box::new(SpecTree::Leaf(SpecLeaf::Core(tok))),
                tail: Box::new(tree),
            }
        },
        SpecTree::Branch { branch_type, head, tail } => SpecTree::Branch {
            branch_type,
            head: Box::new(grow_tree(*head, tok, literal)),
            tail,
        },
    }
}

/// A branch of the given type whose head is still to be filled and whose tail is `tree`.
pub open spec fn open_branch(branch_type: BranchType, tree: SpecTree) -> SpecTree {
    SpecTree::Branch {
        branch_type,
        head: Box::new(SpecTree::Terminal),
        tail: Box::new(tree),
    }
}

/// One step of the content parser. A comment changes nothing; punctuation is refused.
/// `un`, `nu` and `pi` open a union, alternative or property branch over what was read,
/// and are refused before anything was read. `no` turns the head of a branch into the
/// tail of an inner glue branch, and is refused where there is no branch. Any other word
/// grows the tree.
pub open spec fn content_step(tree: SpecTree, t: SpecTokenWithLocation) -> Result<
    SpecTree,
    SpecContentError,
> {
    match t.token {
        SpecToken::Comment(_) => Ok(tree),
        SpecToken::Punctuation(_) => Err(SpecContentError::NotPlainToken(t)),
        SpecToken::Plain(data) => match word_kind(data) {
            WordKind::Union => if tree is Terminal {
                Err(SpecContentError::UnionOfNothing(t))
            } else {
                Ok(open_branch(BranchType::Union, tree))
            },
            WordKind::Alternative => if tree is Terminal {
                Err(SpecContentError::AlternativeOfNothing(t))
            } else {
                Ok(open_branch(BranchType::Alternative, tree))
            },
            WordKind::Property => if tree is Terminal {
                Err(SpecContentError::PropertyOfNothing(t))
            } else {
                Ok(open_branch(BranchType::Property, tree))
            },
            WordKind::Glue => match tree {
                SpecTree::Branch { branch_type, head, tail } => Ok(
                    SpecTree::Branch {
                        branch_type,
                        head: Box::new(open_branch(BranchType::InnerGlue, *head)),
                        tail,
                    },
                ),
                _ => Err(SpecContentError::GlueWithoutBranch(t)),
            },
            WordKind::Word(literal) => Ok(grow_tree(tree, SpecToken::Plain(data), literal)),
        },
    }
}

/// The tree after the first `n` tokens of `ts`; or the index of the refused token, the
/// tree before it, and the error.
pub open spec fn content_prefix(tree: SpecTree, ts: Seq<SpecTokenWithLocation>, n: nat) -> Result<
    SpecTree,
    (int, SpecTree, SpecContentError),
>
    decreases n,
{
    if n == 0 {
        Ok(tree)
    } else {
        match content_prefix(tree, ts, (n - 1) as nat) {
            Ok(t) => match content_step(t, ts[n - 1]) {
                Ok(t2) => Ok(t2),
                Err(e) => Err((n - 1, t, e)),
            },
            Err(x) => Err(x),
        }
    }
}

fn clone_tokens(v: &Vec<Token>) -> (r: Vec<Token>)
    ensures
        tokens_view(r@) == tokens_view(v@),
{
    let mut r: Vec<Token> = Vec::new();
    let mut i: usize = 0;
    while i < v.len()
        invariant
            i <= v@.len(),
            r@.len() == i,
            forall|j: int| 0 <= j < i ==> (#[trigger] r@[j])@ == v@[j]@,
        decreases v@.len() - i,
    {
        let t = v[i].clone();
        r.push(t);
        i = i + 1;
    }
    assert(tokens_view(r@) =~= tokens_view(v@));
    r
}

impl Clone for LeafType {
    fn clone(&self) -> (r: Self)
        ensures
            r@ == self@,
    {
        match self {
            LeafType::Literal(ts) => LeafType::Literal(clone_tokens(ts)),
            LeafType::Core(t) => LeafType::Core(t.clone()),
        }
    }
}

impl Clone for ContentTree {
    fn clone(&self) -> (r: Self)
        ensures
            r@ == self@,
        decreases self,
    {
        match self {
            ContentTree::Terminal => ContentTree::Terminal,
            ContentTree::Leaf(l) => ContentTree::Leaf(l.clone()),
            ContentTree::Branch { branch_type, head, tail } => {
                let h = (**head).clone();
                let t = (**tail).clone();
                ContentTree::Branch { branch_type: *branch_type, head: Box::new(h), tail: Box::new(t) }
            },
        }
    }
}

impl ContentTree {
    /// Whether the phrase is finished: see `SpecTree::is_valid`.
    pub fn is_valid(&self) -> (r: bool)
        ensures
            r == self@.is_valid(),
        decreases self,
    {
        match self {
            ContentTree::Terminal => false,
            ContentTree::Leaf(_) => true,
            ContentTree::Branch { head, tail, .. } => {
                let head_filled = match **head {
                    ContentTree::Terminal => false,
                    _ => true,
                };
                head_filled && head.is_valid() && tail.is_valid()
            },
        }
    }

    /// The tree after a content word, given whether the word is literal: see `grow_tree`.
    pub fn grow(self, token: Token, literal: bool) -> (r: ContentTree)
        ensures
            r@ == grow_tree(self@, token@, literal),
        decreases self,
    {
        proof {
            reveal_with_fuel(ContentTree::model, 3);
        }
        let ghost s0 = self@;
        let ghost t0 = token@;
        let r = match self {
            ContentTree::Terminal => {
                if literal {
                    let mut v: Vec<Token> = Vec::new();
                    v.push(token);
                    assert(tokens_view(v@) =~= seq![t0]);
                    ContentTree::Leaf(LeafType::Literal(v))
                } else {
                    ContentTree::Leaf(LeafType::Core(token))
                }
            },
            ContentTree::Leaf(LeafType::Literal(tokens)) => {
                if literal {
                    let ghost before = tokens_view(tokens@);
                    let mut tokens = tokens;
                    tokens.push(token);
                    assert(tokens_view(tokens@) =~= before.push(t0));
                    ContentTree::Leaf(LeafType::Literal(tokens))
                } else {
                    ContentTree::Branch {
                        branch_type: BranchType::Concatenation,
                        head: Box::new(ContentTree::Leaf(LeafType::Core(token))),
                        tail: Box::new(ContentTree::Leaf(LeafType::Literal(tokens))),
                    }
                }
            },
            ContentTree::Leaf(LeafType::Core(core)) => {
                if literal {
                    let mut v: Vec<Token> = Vec::new();
                    v.push(token);
                    assert(tokens_view(v@) =~= seq![t0]);
                    ContentTree::Branch {
                        branch_type: BranchType::Concatenation,
                        head: Box::new(ContentTree::Leaf(LeafType::Literal(v))),
                        tail: Box::new(ContentTree::Leaf(LeafType::Core(core))),
                    }
                } else {
                    ContentTree::Branch {
                        branch_type: BranchType::Concatenation,
                        head: Box::new(ContentTree::Leaf(LeafType::Core(token))),
                        tail: Box::new(ContentTree::Leaf(LeafType::Core(core))),
                    }
                }
            },
            ContentTree::Branch { branch_type, head, tail } => {
                let grown = (*head).grow(token, literal);
                ContentTree::Branch { branch_type, head: Box::new(grown), tail }
            },
        };
        assert(r@ == grow_tree(s0, t0, literal));
        r
    }
}

/// The kind of a plain word: compares it with the particles, and upper-cases it to see
/// whether it is literal.
pub fn classify(data: &str) -> (r: WordKind)
    ensures
        r == word_kind(data@),
{
    if str_eq(data, "un") {
        WordKind::Union
    } else if str_eq(data, "nu") {
        WordKind::Alternative
    } else if str_eq(data, "pi") {
        WordKind::Property
    } else if str_eq(data, "no") {
        WordKind::Glue
    } else {
        let upper = str_to_uppercase(data);
        let same = str_eq(upper.as_str(), data);
        WordKind::Word(same)
    }
}

fn content_step_exec(tree: ContentTree, token: TokenWithLocation) -> (r: Result<
    ContentTree,
    (ContentTree, ContentParseError),
>)
    ensures
        content_step(tree@, token@) matches Ok(t) ==> (r matches Ok(x) && x@ == t),
        content_step(tree@, token@) matches Err(e) ==> (r matches Err((back, x)) && back@
            == tree@ && x@ == e),
{
    proof {
        reveal_with_fuel(ContentTree::model, 3);
    }
    let kind = match token.peek_inner() {
        Token::Comment(_) => None,
        Token::Punctuation(_) => Some(None),
        Token::Plain(data) => Some(Some(classify(data.as_str()))),
    };
    let kind = match kind {
        None => {
            return Ok(tree);
        },
        Some(k) => k,
    };
    match kind {
        None => Err((tree, ContentParseError::NotPlainToken(token))),
        Some(WordKind::Union) => match tree {
            ContentTree::Terminal => Err((tree, ContentParseError::UnionOfNothing(token))),
            _ => Ok(
                ContentTree::Branch {
                    branch_type: BranchType::Union,
                    head: Box::new(ContentTree::Terminal),
                    tail: Box::new(tree),
                },
            ),
        },
        Some(WordKind::Alternative) => match tree {
            ContentTree::Terminal => Err((tree, ContentParseError::AlternativeOfNothing(token))),
            _ => Ok(
                ContentTree::Branch {
                    branch_type: BranchType::Alternative,
                    head: Box::new(ContentTree::Terminal),
                    tail: Box::new(tree),
                },
            ),
        },
        Some(WordKind::Property) => match tree {
            ContentTree::Terminal => Err((tree, ContentParseError::PropertyOfNothing(token))),
            _ => Ok(
                ContentTree::Branch {
                    branch_type: BranchType::Property,
                    head: Box::new(ContentTree::Terminal),
                    tail: Box::new(tree),
                },
            ),
        },
        Some(WordKind::Glue) => match tree {
            ContentTree::Branch { branch_type, head, tail } => Ok(
                ContentTree::Branch {
                    branch_type,
                    head: Box::new(
                        ContentTree::Branch {
                            branch_type: BranchType::InnerGlue,
                            head: Box::new(ContentTree::Terminal),
                            tail: head,
                        },
                    ),
                    tail,
                },
            ),
            _ => Err((tree, ContentParseError::GlueWithoutBranch(token))),
        },
        Some(WordKind::Word(literal)) => {
            let t = Token::from(token);
            Ok(tree.grow(t, literal))
        },
    }
}

/// Reads the tokens of one content phrase.
#[derive(Debug)]
pub struct ContentTreeParser {
    state: ContentTree,
}

impl View for ContentTreeParser {
    type V = SpecTree;

    closed spec fn view(&self) -> SpecTree {
        self.state@
    }
}

impl ContentTreeParser {
    /// A parser that has read nothing.
    pub fn new() -> (r: Self)
        ensures
            r@ == SpecTree::Terminal,
    {
        ContentTreeParser { state: ContentTree::Terminal }
    }

    /// Succeeds where nothing has been read; otherwise gives back what was.
    pub fn is_empty(&self) -> (r: Result<(), ContentParseError>)
        ensures
            self@ is Terminal ==> r is Ok,
            !(self@ is Terminal) ==> (r matches Err(e) && e@ == SpecContentError::NotEmpty(self@)),
    {
        match self.state {
            ContentTree::Terminal => Ok(()),
            _ => Err(ContentParseError::NotEmpty(self.state.clone())),
        }
    }

    /// Reads one token: see `content_step`. On an error nothing changes.
    pub fn feed_one(&mut self, token: TokenWithLocation) -> (r: Result<(), ContentParseError>)
        ensures
            content_step(old(self)@, token@) matches Ok(t) ==> (r is Ok && final(self)@ == t),
            content_step(old(self)@, token@) matches Err(e) ==> (r matches Err(x) && x@ == e
                && final(self)@ == old(self)@),
    {
        let mut state = ContentTree::Terminal;
        std::mem::swap(&mut state, &mut self.state);
        match content_step_exec(state, token) {
            Ok(t) => {
                self.state = t;
                Ok(())
            },
            Err((back, e)) => {
                self.state = back;
                Err(e)
            },
        }
    }

    /// Reads the tokens in turn: see `content_prefix`. On an error it gives back the
    /// tokens after the refused one, the error, and the tree before the refused token,
    /// which the parser keeps.
    pub fn feed(&mut self, tokens: Vec<TokenWithLocation>) -> (r: Result<(), ContentParseError>)
        ensures
            content_prefix(old(self)@, located_tokens_view(tokens@), tokens@.len()) matches Ok(t)
                ==> (r is Ok && final(self)@ == t),
            content_prefix(old(self)@, located_tokens_view(tokens@), tokens@.len()) matches Err(
                (i, t, e),
            ) ==> (r matches Err(x) && x@ == (SpecContentError::ErrorInString {
                remainder: located_tokens_view(tokens@).skip(i + 1),
                inner: Box::new(e),
                state: t,
            }) && final(self)@ == t),
    {
        let ghost all = located_tokens_view(tokens@);
        let ghost t0 = self@;
        let n = tokens.len();
        let mut rest = tokens;
        let mut i: usize = 0;
        assert(all.skip(0) =~= all);
        while !rest.is_empty()
            invariant
                t0 == old(self)@,
                all == located_tokens_view(tokens@),
                all.len() == n,
                i <= n,
                located_tokens_view(rest@) == all.skip(i as int),
                content_prefix(t0, all, i as nat) == Ok::<SpecTree, (int, SpecTree, SpecContentError)>(
                    self@,
                ),
            decreases n - i,
        {
            let ghost before = rest@;
            assert(located_tokens_view(before).len() == before.len());
            assert(i < n);
            let token = rest.remove(0);
            assert(located_tokens_view(before)[0] == token@);
            assert(all.skip(i as int)[0] == all[i as int]);
            assert(located_tokens_view(rest@) =~= located_tokens_view(before).skip(1));
            assert(all.skip(i as int).skip(1) =~= all.skip(i + 1));
            if let Err(e) = self.feed_one(token) {
                proof {
                    lemma_content_error_stays(t0, all, (i + 1) as nat, n as nat);
                }
                return Err(
                    ContentParseError::ErrorInString {
                        remainder: rest,
                        inner: Box::new(e),
                        state: self.state.clone(),
                    },
                );
            }
            i = i + 1;
        }
        Ok(())
    }

    /// Ends the phrase: gives back the tree where it is finished, and refuses it otherwise.
    pub fn close(self) -> (r: Result<ContentTree, ContentParseError>)
        ensures
            self@.is_valid() ==> (r matches Ok(t) && t@ == self@),
            !self@.is_valid() ==> (r matches Err(e) && e@ == SpecContentError::InvalidTreeStructure(
                self@,
            )),
    {
        if self.state.is_valid() {
            Ok(self.state)
        } else {
            Err(ContentParseError::InvalidTreeStructure(self.state))
        }
    }

    /// Takes the finished phrase out and starts again from nothing; where the phrase is
    /// not finished, refuses it and keeps it.
    pub fn take(&mut self) -> (r: Result<ContentTree, ContentParseError>)
        ensures
            old(self)@.is_valid() ==> (r matches Ok(t) && t@ == old(self)@ && final(self)@
                is Terminal),
            !old(self)@.is_valid() ==> (r matches Err(e) && e@
                == SpecContentError::InvalidTreeStructure(old(self)@) && final(self)@ == old(
                self)@),
    {
        if self.state.is_valid() {
            let mut state = ContentTree::Terminal;
            std::mem::swap(&mut state, &mut self.state);
            Ok(state)
        } else {
            Err(ContentParseError::InvalidTreeStructure(self.state.clone()))
        }
    }
}

proof fn lemma_content_error_stays(t: SpecTree, ts: Seq<SpecTokenWithLocation>, k: nat, m: nat)
    requires
        k <= m,
        content_prefix(t, ts, k) is Err,
    ensures
        content_prefix(t, ts, m) == content_prefix(t, ts, k),
    decreases m,
{
    if k < m {
        lemma_content_error_stays(t, ts, k, (m - 1) as nat);
    }
}

/// The contents of a run of tokens.
pub open spec fn contents(ts: Seq<SpecToken>) -> Seq<Seq<char>> {
    ts.map_values(|t: SpecToken| t.content())
}

/// The reading of a leaf: a literal run in square brackets, its words separated by
/// spaces; a content word as it is.
pub open spec fn leaf_natural(l: SpecLeaf) -> Seq<char> {
    match l {
        SpecLeaf::Literal(ts) => "["@ + join(contents(ts), " "@) + "]"@,
        SpecLeaf::Core(t) => t.content(),
    }
}

/// The reading of a tree: `∅` for an unfilled place, and a branch as its tail and its
/// head, in that order, in parentheses.
pub open spec fn tree_natural(t: SpecTree) -> Seq<char>
    decreases t,
{
    match t {
        SpecTree::Terminal => "∅"@,
        SpecTree::Leaf(l) => leaf_natural(l),
        SpecTree::Branch { head, tail, .. } => "("@ + tree_natural(*tail) + " "@ + tree_natural(
            *head,
        ) + ")"@,
    }
}

impl Natural for LeafType {
    open spec fn natural(&self) -> Seq<char> {
        leaf_natural(self@)
    }

    fn as_natural(&self) -> (r: String) {
        match self {
            LeafType::Literal(tokens) => {
                let mut parts: Vec<String> = Vec::new();
                let mut i: usize = 0;
                while i < tokens.len()
                    invariant
                        i <= tokens@.len(),
                        parts@.len() == i,
                        forall|j: int| 0 <= j < i ==> (#[trigger] parts@[j])@ == tokens@[j]@.content(),
                    decreases tokens@.len() - i,
                {
                    parts.push(tokens[i].as_natural());
                    i = i + 1;
                }
                assert(crate::text::strings_view(parts@) =~= contents(tokens_view(tokens@)));
                let mut r = owned("[");
                let inner = join_strings(&parts, " ");
                r.append(inner.as_str());
                r.append("]");
                r
            },
            LeafType::Core(token) => token.as_natural(),
        }
    }
}

impl Natural for ContentTree {
    open spec fn natural(&self) -> Seq<char> {
        tree_natural(self@)
    }

    fn as_natural(&self) -> (r: String)
        decreases self,
    {
        match self {
            ContentTree::Terminal => owned("∅"),
            ContentTree::Leaf(leaf) => leaf.as_natural(),
            ContentTree::Branch { head, tail, .. } => {
                let mut r = owned("(");
                let t = (**tail).as_natural();
                r.append(t.as_str());
                r.append(" ");
                let h = (**head).as_natural();
                r.append(h.as_str());
                r.append(")");
                r
            },
        }
    }
}

/// The tree of the grammar of `pi` and `no` as the language guide writes it down (its
/// `Tree`, read by `parseInto`, folded over the words by `parseTokens` and read out by
/// `toNatural`; here `grammar_parse_into`, `grammar_parse` and `grammar_natural`): a leaf
/// holds a word, or nothing; a node holds a head and a tail.
pub enum GrammarTree {
    Leaf(Option<Seq<char>>),
    Node(Box<GrammarTree>, Box<GrammarTree>),
}

/// The grammar's pruning: a node whose tail is an empty leaf is its head.
pub open spec fn grammar_prune(t: GrammarTree) -> GrammarTree {
    match t {
        GrammarTree::Node(head, tail) => if *tail == GrammarTree::Leaf(None) {
            *head
        } else {
            t
        },
        _ => t,
    }
}

/// The grammar's reading of one word: `pi` opens a node over everything read; `no`
/// turns the head of a node into the tail of a new inner node; any other word fills the
/// innermost head, next to a leaf.
pub open spec fn grammar_parse_into(state: GrammarTree, token: Seq<char>) -> GrammarTree
    decreases state,
{
    grammar_prune(
        if token == "pi"@ {
            GrammarTree::Node(Box::new(GrammarTree::Leaf(None)), Box::new(state))
        } else {
            match state {
                GrammarTree::Node(head, tail) => if token == "no"@ {
                    GrammarTree::Node(
                        Box::new(GrammarTree::Node(Box::new(GrammarTree::Leaf(None)), head)),
                        tail,
                    )
                } else {
                    GrammarTree::Node(Box::new(grammar_parse_into(*head, token)), tail)
                },
                GrammarTree::Leaf(v) => GrammarTree::Node(
                    Box::new(GrammarTree::Leaf(Some(token))),
                    Box::new(GrammarTree::Leaf(v)),
                ),
            }
        },
    )
}

/// The grammar's reading of a tree: a node as its tail and its head in parentheses.
pub open spec fn grammar_natural(t: GrammarTree) -> Seq<char>
    decreases t,
{
    match t {
        GrammarTree::Leaf(Some(v)) => v,
        GrammarTree::Leaf(None) => seq![],
        GrammarTree::Node(head, tail) => "("@ + grammar_natural(*tail) + " "@ + grammar_natural(*head) + ")"@,
    }
}

/// A content tree as a grammar tree: an unfilled place is an empty leaf, a word a leaf
/// with the word, a branch a node. (A literal run has no counterpart; it becomes a leaf
/// with nothing written.)
pub open spec fn embed(t: SpecTree) -> GrammarTree
    decreases t,
{
    match t {
        SpecTree::Terminal => GrammarTree::Leaf(None),
        SpecTree::Leaf(SpecLeaf::Core(tok)) => GrammarTree::Leaf(Some(tok.content())),
        SpecTree::Leaf(SpecLeaf::Literal(_)) => GrammarTree::Leaf(Some(seq![])),
        SpecTree::Branch { head, tail, .. } => GrammarTree::Node(
            Box::new(embed(*head)),
            Box::new(embed(*tail)),
        ),
    }
}

/// A tree that the grammar describes: no literal runs, and no branch with an unfilled
/// tail.
pub open spec fn plain_shape(t: SpecTree) -> bool
    decreases t,
{
    match t {
        SpecTree::Terminal => true,
        SpecTree::Leaf(SpecLeaf::Core(_)) => true,
        SpecTree::Leaf(SpecLeaf::Literal(_)) => false,
        SpecTree::Branch { head, tail, .. } => !(*tail is Terminal) && plain_shape(*head)
            && plain_shape(*tail),
    }
}

proof fn lemma_embed_empty(t: SpecTree)
    requires
        plain_shape(t),
    ensures
        embed(t) == GrammarTree::Leaf(None) <==> t is Terminal,
{
}

proof fn lemma_grow_grammar(t: SpecTree, w: Seq<char>)
    requires
        plain_shape(t),
        w != "pi"@,
        w != "no"@,
    ensures
        embed(grow_tree(t, SpecToken::Plain(w), false)) == grammar_parse_into(embed(t), w),
    decreases t,
{
    reveal_with_fuel(embed, 3);
    match t {
        SpecTree::Branch { branch_type, head, tail } => {
            lemma_grow_grammar(*head, w);
            lemma_embed_empty(*tail);
            let g = grow_tree(*head, SpecToken::Plain(w), false);
            assert(grow_tree(t, SpecToken::Plain(w), false) == SpecTree::Branch {
                branch_type,
                head: Box::new(g),
                tail,
            });
            assert(embed(t) == GrammarTree::Node(Box::new(embed(*head)), Box::new(embed(*tail))));
            let core = GrammarTree::Node(Box::new(grammar_parse_into(embed(*head), w)), Box::new(embed(*tail)));
            assert(grammar_parse_into(embed(t), w) == grammar_prune(core));
        },
        SpecTree::Leaf(SpecLeaf::Core(a)) => {
            assert(embed(t) == GrammarTree::Leaf(Some(a.content())));
        },
        _ => {},
    }
}

/// Law: on trees it describes, the content parser reads a plain word, `pi` or `no` as
/// the language's grammar of `pi` and `no` does, wherever the parser accepts the word.
/// (`un`, `nu` and literal words are outside that grammar.)
pub proof fn lemma_agrees_with_grammar(tree: SpecTree, t: SpecTokenWithLocation, w: Seq<char>)
    requires
        plain_shape(tree),
        t.token == SpecToken::Plain(w),
        w != "un"@,
        w != "nu"@,
        !is_literal_word(w),
        content_step(tree, t) is Ok,
    ensures
        embed(content_step(tree, t)->Ok_0) == grammar_parse_into(embed(tree), w),
{
    reveal_with_fuel(embed, 3);
    reveal_strlit("un");
    reveal_strlit("nu");
    reveal_strlit("pi");
    reveal_strlit("no");
    if w == "pi"@ {
        lemma_embed_empty(tree);
        assert(word_kind(w) == WordKind::Property);
        assert(content_step(tree, t)->Ok_0 == open_branch(BranchType::Property, tree));
    } else if w == "no"@ {
        assert(word_kind(w) == WordKind::Glue);
        match tree {
            SpecTree::Branch { branch_type, head, tail } => {
                lemma_embed_empty(*tail);
                assert(embed(tree) == GrammarTree::Node(Box::new(embed(*head)), Box::new(embed(*tail))));
            },
            _ => {},
        }
    } else {
        assert(word_kind(w) == WordKind::Word(false));
        lemma_grow_grammar(tree, w);
    }
}

/// The grammar's tree after the first `n` words, read one by one from an empty leaf.
pub open spec fn grammar_parse(ws: Seq<Seq<char>>, n: nat) -> GrammarTree
    decreases n,
{
    if n == 0 || n > ws.len() {
        GrammarTree::Leaf(None)
    } else {
        grammar_parse_into(grammar_parse(ws, (n - 1) as nat), ws[n - 1])
    }
}

/// The words of a run of tokens.
pub open spec fn token_words(ts: Seq<SpecTokenWithLocation>) -> Seq<Seq<char>> {
    ts.map_values(|t: SpecTokenWithLocation| t.token.content())
}

/// The tokens are words that the grammar of `pi` and `no` covers: plain, not literal,
/// and neither `un` nor `nu`.
pub open spec fn grammar_words(ts: Seq<SpecTokenWithLocation>) -> bool {
    forall|i: int|
        #![trigger ts[i]]
        0 <= i < ts.len() ==> {
            &&& ts[i].token is Plain
            &&& !is_literal_word(ts[i].token.content())
            &&& ts[i].token.content() != "un"@
            &&& ts[i].token.content() != "nu"@
        }
}

/// No `no` comes right after a `pi`.
pub open spec fn no_glue_after_pi(ts: Seq<SpecTokenWithLocation>) -> bool {
    forall|i: int|
        #![trigger ts[i]]
        1 <= i < ts.len() && ts[i].token.content() == "no"@ ==> ts[i - 1].token.content()
            != "pi"@
}

/// No leaf of the tree is a literal run.
pub open spec fn no_literal_leaves(t: SpecTree) -> bool
    decreases t,
{
    match t {
        SpecTree::Leaf(SpecLeaf::Literal(_)) => false,
        SpecTree::Branch { head, tail, .. } => no_literal_leaves(*head) && no_literal_leaves(
            *tail,
        ),
        _ => true,
    }
}

proof fn lemma_grow_monotone(t: SpecTree, w: Seq<char>)
    ensures
        no_literal_leaves(t) ==> no_literal_leaves(grow_tree(t, SpecToken::Plain(w), false)),
        !plain_shape(t) ==> !plain_shape(grow_tree(t, SpecToken::Plain(w), false)),
    decreases t,
{
    reveal_with_fuel(plain_shape, 2);
    reveal_with_fuel(no_literal_leaves, 2);
    if let SpecTree::Branch { head, .. } = t {
        lemma_grow_monotone(*head, w);
    }
}

proof fn lemma_step_monotone(tree: SpecTree, t: SpecTokenWithLocation, w: Seq<char>)
    requires
        t.token == SpecToken::Plain(w),
        w != "un"@,
        w != "nu"@,
        !is_literal_word(w),
        content_step(tree, t) is Ok,
    ensures
        no_literal_leaves(tree) ==> no_literal_leaves(content_step(tree, t)->Ok_0),
        !plain_shape(tree) ==> !plain_shape(content_step(tree, t)->Ok_0),
        w == "no"@ && head_unfilled(tree) ==> !plain_shape(content_step(tree, t)->Ok_0),
{
    reveal_with_fuel(plain_shape, 3);
    reveal_with_fuel(no_literal_leaves, 3);
    reveal_strlit("un");
    reveal_strlit("nu");
    reveal_strlit("pi");
    reveal_strlit("no");
    assert("pi"@ != "no"@) by {
        assert("pi"@[0] != "no"@[0]);
    }
    if w == "pi"@ {
        assert(word_kind(w) == WordKind::Property);
    } else if w == "no"@ {
        assert(word_kind(w) == WordKind::Glue);
        if let SpecTree::Branch { branch_type, head, tail } = tree {
            let glue = open_branch(BranchType::InnerGlue, *head);
            assert(content_step(tree, t)->Ok_0 == SpecTree::Branch {
                branch_type,
                head: Box::new(glue),
                tail,
            });
            if *head is Terminal {
                assert(!plain_shape(glue));
                assert(!plain_shape(content_step(tree, t)->Ok_0));
            }
        }
    } else {
        assert(word_kind(w) == WordKind::Word(false));
        lemma_grow_monotone(tree, w);
    }
}

proof fn lemma_valid_is_plain(t: SpecTree)
    requires
        t.is_valid(),
        no_literal_leaves(t),
    ensures
        plain_shape(t),
    decreases t,
{
    if let SpecTree::Branch { head, tail, .. } = t {
        lemma_valid_is_plain(*head);
        lemma_valid_is_plain(*tail);
    }
}

proof fn lemma_parse_prefix_where_plain(ts: Seq<SpecTokenWithLocation>, n: nat)
    requires
        n <= ts.len(),
        grammar_words(ts),
        content_prefix(SpecTree::Terminal, ts, n) is Ok,
    ensures
        no_literal_leaves(content_prefix(SpecTree::Terminal, ts, n)->Ok_0),
        plain_shape(content_prefix(SpecTree::Terminal, ts, n)->Ok_0) ==> embed(
            content_prefix(SpecTree::Terminal, ts, n)->Ok_0,
        ) == grammar_parse(token_words(ts), n),
    decreases n,
{
    if n > 0 {
        let m = (n - 1) as nat;
        assert(content_prefix(SpecTree::Terminal, ts, m) is Ok);
        lemma_parse_prefix_where_plain(ts, m);
        let prev = content_prefix(SpecTree::Terminal, ts, m)->Ok_0;
        let t = ts[n - 1];
        let w = t.token.content();
        assert(t.token == SpecToken::Plain(w));
        lemma_step_monotone(prev, t, w);
        if plain_shape(content_prefix(SpecTree::Terminal, ts, n)->Ok_0) {
            lemma_step_keeps_shape(prev, t, w);
            lemma_agrees_with_grammar(prev, t, w);
            assert(token_words(ts)[n - 1] == w);
        }
    }
}

/// The head of the outermost branch is an unfilled place.
pub open spec fn head_unfilled(t: SpecTree) -> bool {
    t matches SpecTree::Branch { head, .. } && *head is Terminal
}

proof fn lemma_grow_keeps_shape(t: SpecTree, w: Seq<char>)
    requires
        plain_shape(t),
    ensures
        plain_shape(grow_tree(t, SpecToken::Plain(w), false)),
        !(grow_tree(t, SpecToken::Plain(w), false) is Terminal),
        !head_unfilled(grow_tree(t, SpecToken::Plain(w), false)),
    decreases t,
{
    reveal_with_fuel(plain_shape, 2);
    if let SpecTree::Branch { head, .. } = t {
        lemma_grow_keeps_shape(*head, w);
    }
}

proof fn lemma_step_keeps_shape(tree: SpecTree, t: SpecTokenWithLocation, w: Seq<char>)
    requires
        plain_shape(tree),
        t.token == SpecToken::Plain(w),
        w != "un"@,
        w != "nu"@,
        !is_literal_word(w),
        w == "no"@ ==> !head_unfilled(tree),
        content_step(tree, t) is Ok,
    ensures
        plain_shape(content_step(tree, t)->Ok_0),
        head_unfilled(content_step(tree, t)->Ok_0) ==> w == "pi"@,
{
    reveal_with_fuel(plain_shape, 3);
    reveal_strlit("un");
    reveal_strlit("nu");
    reveal_strlit("pi");
    reveal_strlit("no");
    if w == "pi"@ {
        assert(word_kind(w) == WordKind::Property);
    } else if w == "no"@ {
        assert(word_kind(w) == WordKind::Glue);
    } else {
        assert(word_kind(w) == WordKind::Word(false));
        lemma_grow_keeps_shape(tree, w);
    }
}

proof fn lemma_parse_prefix_agrees(ts: Seq<SpecTokenWithLocation>, n: nat)
    requires
        n <= ts.len(),
        grammar_words(ts),
        no_glue_after_pi(ts),
        content_prefix(SpecTree::Terminal, ts, n) is Ok,
    ensures
        plain_shape(content_prefix(SpecTree::Terminal, ts, n)->Ok_0),
        head_unfilled(content_prefix(SpecTree::Terminal, ts, n)->Ok_0) ==> n > 0 && ts[n
            - 1].token.content() == "pi"@,
        embed(content_prefix(SpecTree::Terminal, ts, n)->Ok_0) == grammar_parse(
            token_words(ts),
            n,
        ),
    decreases n,
{
    if n > 0 {
        let m = (n - 1) as nat;
        assert(content_prefix(SpecTree::Terminal, ts, m) is Ok);
        lemma_parse_prefix_agrees(ts, m);
        let prev = content_prefix(SpecTree::Terminal, ts, m)->Ok_0;
        let t = ts[n - 1];
        let w = t.token.content();
        assert(t.token == SpecToken::Plain(w));
        if w == "no"@ && head_unfilled(prev) {
            assert(ts[m - 1].token.content() == "pi"@);
            assert(false);
        }
        lemma_step_keeps_shape(prev, t, w);
        lemma_agrees_with_grammar(prev, t, w);
        assert(token_words(ts)[n - 1] == w);
    }
}

/// Law: reading a run of words that the grammar of `pi` and `no` covers gives, wherever the
/// parser accepts the run and the tree is finished, a tree that reads as the grammar's tree
/// for the same words reads. Where no `no` comes right after a `pi`, the tree is the
/// grammar's tree itself, finished or not.
pub proof fn lemma_parse_agrees_with_grammar(ts: Seq<SpecTokenWithLocation>)
    requires
        grammar_words(ts),
        content_prefix(SpecTree::Terminal, ts, ts.len()) is Ok,
    ensures
        content_prefix(SpecTree::Terminal, ts, ts.len())->Ok_0.is_valid() ==> tree_natural(
            content_prefix(SpecTree::Terminal, ts, ts.len())->Ok_0,
        ) == grammar_natural(grammar_parse(token_words(ts), ts.len())),
        no_glue_after_pi(ts) ==> embed(content_prefix(SpecTree::Terminal, ts, ts.len())->Ok_0)
            == grammar_parse(token_words(ts), ts.len()),
{
    let t = content_prefix(SpecTree::Terminal, ts, ts.len())->Ok_0;
    lemma_parse_prefix_where_plain(ts, ts.len());
    if no_glue_after_pi(ts) {
        lemma_parse_prefix_agrees(ts, ts.len());
    }
    if t.is_valid() {
        lemma_valid_is_plain(t);
        lemma_natural_as_grammar(t);
    }
}

/// A word of lower-case ASCII letters only.
pub open spec fn is_lowercase_word(w: Seq<char>) -> bool {
    &&& w.len() > 0
    &&& forall|i: int| 0 <= i < w.len() ==> 'a' <= #[trigger] w[i] <= 'z'
}

/// A word of lower-case letters is not literal: upper-casing changes its first letter.
pub proof fn lemma_lowercase_is_not_literal(w: Seq<char>)
    requires
        is_lowercase_word(w),
    ensures
        !is_literal_word(w),
{
    assert(crate::text::is_ascii_text(w)) by {
        assert forall|i: int| 0 <= i < w.len() implies w[i] <= '\x7f' by {
            assert('a' <= w[i] <= 'z');
        }
    }
    let c = w[0];
    assert('a' <= c <= 'z');
    assert(crate::text::ascii_upper(c) != c);
    assert(upper_case(w)[0] != w[0]);
}

/// Law: for a run of lower-case words other than `un` and `nu`, wherever the parser
/// accepts the run and the tree is finished, the tree reads as the grammar's tree for the
/// same words reads; where no `no` comes right after a `pi`, the tree is the grammar's
/// tree itself.
pub proof fn lemma_lowercase_parse_agrees_with_grammar(ts: Seq<SpecTokenWithLocation>)
    requires
        forall|i: int|
            #![trigger ts[i]]
            0 <= i < ts.len() ==> {
                &&& ts[i].token is Plain
                &&& is_lowercase_word(ts[i].token.content())
                &&& ts[i].token.content() != "un"@
                &&& ts[i].token.content() != "nu"@
            },
        content_prefix(SpecTree::Terminal, ts, ts.len()) is Ok,
    ensures
        content_prefix(SpecTree::Terminal, ts, ts.len())->Ok_0.is_valid() ==> tree_natural(
            content_prefix(SpecTree::Terminal, ts, ts.len())->Ok_0,
        ) == grammar_natural(grammar_parse(token_words(ts), ts.len())),
        no_glue_after_pi(ts) ==> embed(content_prefix(SpecTree::Terminal, ts, ts.len())->Ok_0)
            == grammar_parse(token_words(ts), ts.len()),
{
    assert forall|i: int| 0 <= i < ts.len() implies !is_literal_word(
        (#[trigger] ts[i]).token.content(),
    ) by {
        lemma_lowercase_is_not_literal(ts[i].token.content());
    }
    lemma_parse_agrees_with_grammar(ts);
}

/// Law: a finished tree without literal runs reads as the grammar reads its
/// counterpart.
pub proof fn lemma_natural_as_grammar(t: SpecTree)
    requires
        t.is_valid(),
        plain_shape(t),
    ensures
        tree_natural(t) == grammar_natural(embed(t)),
    decreases t,
{
    match t {
        SpecTree::Branch { head, tail, .. } => {
            lemma_natural_as_grammar(*head);
            lemma_natural_as_grammar(*tail);
        },
        _ => {},
    }
}


proof fn lemma_content_prefix_of_concat(
    t: SpecTree,
    a: Seq<SpecTokenWithLocation>,
    b: Seq<SpecTokenWithLocation>,
    n: nat,
)
    requires
        n <= a.len(),
    ensures
        content_prefix(t, a + b, n) == content_prefix(t, a, n),
    decreases n,
{
    if n > 0 {
        lemma_content_prefix_of_concat(t, a, b, (n - 1) as nat);
        assert((a + b)[n - 1] == a[n - 1]);
    }
}

proof fn lemma_content_suffix_of_concat(
    t: SpecTree,
    a: Seq<SpecTokenWithLocation>,
    b: Seq<SpecTokenWithLocation>,
    t1: SpecTree,
    m: nat,
)
    requires
        m <= b.len(),
        content_prefix(t, a, a.len()) == Ok::<SpecTree, (int, SpecTree, SpecContentError)>(t1),
    ensures
        content_prefix(t, a + b, a.len() + m) == match content_prefix(t1, b, m) {
            Ok(t2) => Ok(t2),
            Err((i, s, e)) => Err((a.len() + i, s, e)),
        },
    decreases m,
{
    if m == 0 {
        lemma_content_prefix_of_concat(t, a, b, a.len());
    } else {
        lemma_content_suffix_of_concat(t, a, b, t1, (m - 1) as nat);
        assert((a + b)[a.len() + m - 1] == b[m - 1]);
    }
}

/// Law: feeding the content parser two runs of tokens one after the other gives what
/// feeding them together gives; an error in either run is the error of the whole, at its
/// place in the whole.
pub proof fn lemma_content_in_pieces(
    t: SpecTree,
    a: Seq<SpecTokenWithLocation>,
    b: Seq<SpecTokenWithLocation>,
)
    ensures
        content_prefix(t, a + b, (a + b).len()) == match content_prefix(t, a, a.len()) {
            Ok(t1) => match content_prefix(t1, b, b.len()) {
                Ok(t2) => Ok(t2),
                Err((i, s, e)) => Err((a.len() + i, s, e)),
            },
            Err(x) => Err(x),
        },
{
    match content_prefix(t, a, a.len()) {
        Ok(t1) => {
            lemma_content_suffix_of_concat(t, a, b, t1, b.len());
        },
        Err(x) => {
            lemma_content_prefix_of_concat(t, a, b, a.len());
            lemma_content_error_stays(t, a + b, a.len(), (a + b).len());
        },
    }
}

/// Law: a content word fills the innermost head of a phrase, so a phrase whose only
/// unfilled place was that head is finished after it (as is an empty phrase).
pub proof fn lemma_grow_fills(tree: SpecTree, tok: SpecToken, literal: bool)
    requires
        filled_but_innermost(tree),
    ensures
        grow_tree(tree, tok, literal).is_valid(),
    decreases tree,
{
    reveal_with_fuel(SpecTree::is_valid, 3);
    if let SpecTree::Branch { head, .. } = tree {
        lemma_grow_fills(*head, tok, literal);
    }
}

/// The words of a tree in reading order: a branch's tail before its head, a literal run
/// word by word.
pub open spec fn tree_words(t: SpecTree) -> Seq<Seq<char>>
    decreases t,
{
    match t {
        SpecTree::Terminal => seq![],
        SpecTree::Leaf(SpecLeaf::Literal(ts)) => contents(ts),
        SpecTree::Leaf(SpecLeaf::Core(tok)) => seq![tok.content()],
        SpecTree::Branch { head, tail, .. } => tree_words(*tail) + tree_words(*head),
    }
}

/// Law: a content word is read after every word before it: growing the tree with a word
/// keeps the words already there, in their order, and adds the new one at the end.
pub proof fn lemma_word_comes_last(t: SpecTree, tok: SpecToken, literal: bool)
    ensures
        tree_words(grow_tree(t, tok, literal)) == tree_words(t).push(tok.content()),
    decreases t,
{
    reveal_with_fuel(tree_words, 3);
    match t {
        SpecTree::Terminal => {
            if literal {
                assert(contents(seq![tok]) =~= seq![tok.content()]);
            }
            assert(seq![tok.content()] =~= seq![].push(tok.content()));
        },
        SpecTree::Leaf(SpecLeaf::Literal(ts)) => {
            if literal {
                assert(contents(ts.push(tok)) =~= contents(ts).push(tok.content()));
            } else {
                assert(contents(ts) + seq![tok.content()] =~= contents(ts).push(tok.content()));
            }
        },
        SpecTree::Leaf(SpecLeaf::Core(c)) => {
            if literal {
                assert(contents(seq![tok]) =~= seq![tok.content()]);
            }
            assert(seq![c.content()] + seq![tok.content()] =~= seq![c.content()].push(
                tok.content(),
            ));
        },
        SpecTree::Branch { head, tail, .. } => {
            lemma_word_comes_last(*head, tok, literal);
            assert(tree_words(*tail) + tree_words(*head).push(tok.content()) =~= (tree_words(
                *tail,
            ) + tree_words(*head)).push(tok.content()));
        },
    }
}

/// The number of branches of the given type in a tree.
pub open spec fn branch_count(t: SpecTree, k: BranchType) -> nat
    decreases t,
{
    match t {
        SpecTree::Branch { branch_type, head, tail } => (if branch_type == k {
            1nat
        } else {
            0nat
        }) + branch_count(*head, k) + branch_count(*tail, k),
        _ => 0,
    }
}

/// Law: a content word, literal or not, adds at most one branch, and only a concatenation:
/// the numbers of property, glue, union and alternative branches stay as they were.
pub proof fn lemma_words_only_concatenate(
    t: SpecTree,
    tok: SpecToken,
    literal: bool,
    k: BranchType,
)
    ensures
        k != BranchType::Concatenation ==> branch_count(grow_tree(t, tok, literal), k)
            == branch_count(t, k),
        branch_count(grow_tree(t, tok, literal), BranchType::Concatenation) <= branch_count(
            t,
            BranchType::Concatenation,
        ) + 1,
    decreases t,
{
    reveal_with_fuel(branch_count, 3);
    if let SpecTree::Branch { head, .. } = t {
        lemma_words_only_concatenate(*head, tok, literal, k);
        lemma_words_only_concatenate(*head, tok, literal, BranchType::Concatenation);
    }
}

/// Law: each particle adds exactly one branch of its own type and none of another: `pi` a
/// property, `no` an inner glue, `un` a union and `nu` an alternative.
pub proof fn lemma_particles_make_their_branch(
    tree: SpecTree,
    t: SpecTokenWithLocation,
    w: Seq<char>,
    k: BranchType,
)
    requires
        t.token == SpecToken::Plain(w),
        content_step(tree, t) is Ok,
        word_kind(w) != WordKind::Word(true),
        word_kind(w) != WordKind::Word(false),
    ensures
        branch_count(content_step(tree, t)->Ok_0, k) == branch_count(tree, k) + (if k == (
        match word_kind(w) {
            WordKind::Union => BranchType::Union,
            WordKind::Alternative => BranchType::Alternative,
            WordKind::Property => BranchType::Property,
            _ => BranchType::InnerGlue,
        }) {
            1nat
        } else {
            0nat
        }),
{
    reveal_with_fuel(branch_count, 3);
}

/// Every place of the tree is filled but the innermost head, which may be empty.
pub open spec fn filled_but_innermost(t: SpecTree) -> bool
    decreases t,
{
    match t {
        SpecTree::Terminal => true,
        SpecTree::Leaf(_) => true,
        SpecTree::Branch { head, tail, .. } => filled_but_innermost(*head) && (*tail).is_valid(),
    }
}

} // verus!
