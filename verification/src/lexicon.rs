//! The vocabulary and the table that splits a written word into its parts.
//!
//! A written word is an optional prefix, a root, an optional suffix and, after a
//! suffix only, an optional second suffix. The table lists every such spelling in a
//! fixed order; where two splittings spell the same word, the later one in that order
//! is the one that counts.
use vstd::prelude::*;

use vstd::hash_map::StringHashMap;
use vstd::string::StringExecFns;

use crate::text::str_eq;

verus! {

/// Prefixes that make the opposite of the word they stand before.
pub const PREFIX_WORDS: [&'static str; 1] = ["an"];

/// The content words.
pub const ROOT_WORDS: [&'static str; 137] = [
    "a", "akesi", "ala", "alasa", "ale", "ali", "anpa", "ante", "anu", "awen", "e", "en", "epiku",
    "esun", "ijo", "ike", "ilo", "insa", "jaki", "jan", "jasima", "jelo", "jo", "kala", "kalama",
    "kama", "kasi", "ken", "kepeken", "kili", "kin", "kipisi", "kiwen", "ko", "kon", "kule",
    "kulupu", "kute", "la", "lanpan", "lape", "laso", "lawa", "leko", "len", "lete", "li", "lili",
    "linja", "lipu", "loje", "lon", "luka", "lukin", "lupa", "ma", "mama", "mani", "meli", "meso",
    "mi", "mije", "misikeke", "moku", "moli", "monsi", "monsuta", "mu", "mun", "musi", "mute",
    "namako", "nanpa", "nasa", "nasin", "nena", "ni", "nimi", "no", "noka", "o", "oko", "olin",
    "ona", "open", "pakala", "pali", "palisa", "pan", "pana", "pi", "pilin", "pimeja", "pini",
    "pipi", "poka", "poki", "pona", "pu", "sa", "sama", "seli", "selo", "seme", "sewi", "sijelo",
    "sike", "sin", "sina", "sinpin", "sitelen", "soko", "sona", "soweli", "suli", "suno", "supa",
    "suwi", "tan", "taso", "tawa", "telo", "tenpo", "toki", "tomo", "tonsi", "tu", "un", "unpa",
    "uta", "utala", "walo", "wan", "waso", "wawa", "weka", "wile",
];

/// The grammatical particles that attach at the end of a word.
pub const SUFFIX_WORDS: [&'static str; 10] = [
    "su", "pa", "mo", "ta", "na", "ki", "lo", "lu", "la", "nu",
];

/// The particles that may follow a suffix.
pub const SUFSUFFIX_WORDS: [&'static str; 1] = ["la"];

/// The upper-case syllables that spell out names and borrowed words.
pub const LITERAL_WORDS: [&'static str; 92] = [
    "A", "AN", "E", "EN", "I", "IN", "O", "ON", "U", "UN", "PA", "PAN", "PE", "PEN", "PI", "PIN",
    "PO", "PON", "PU", "PUN", "TA", "TAN", "TE", "TEN", "TO", "TON", "TU", "TUN", "KA", "KAN",
    "KE", "KEN", "KI", "KIN", "KO", "KON", "KU", "KUN", "SA", "SAN", "SE", "SEN", "SI", "SIN",
    "SO", "SON", "SU", "SUN", "MA", "MAN", "ME", "MEN", "MI", "MIN", "MO", "MON", "MU", "MUN",
    "NA", "NAN", "NE", "NEN", "NI", "NIN", "NO", "NON", "NU", "NUN", "LA", "LAN", "LE", "LEN",
    "LI", "LIN", "LO", "LON", "LU", "LUN", "JA", "JAN", "JE", "JEN", "JO", "JON", "JU", "JUN",
    "WA", "WAN", "WE", "WEN", "WI", "WIN",
];

/// The characters of each word of a list.
pub open spec fn words_view(words: Seq<&'static str>) -> Seq<Seq<char>> {
    words.map_values(|w: &'static str| w@)
}

/// A vocabulary, as the sequences of characters of its words.
pub struct SpecLexicon {
    pub prefixes: Seq<Seq<char>>,
    pub roots: Seq<Seq<char>>,
    pub suffixes: Seq<Seq<char>>,
    pub literals: Seq<Seq<char>>,
    pub sufsuffixes: Seq<Seq<char>>,
}

/// A vocabulary: the word lists that the table is made from.
pub struct Lexicon {
    pub prefixes: Vec<&'static str>,
    pub roots: Vec<&'static str>,
    pub suffixes: Vec<&'static str>,
    pub literals: Vec<&'static str>,
    pub sufsuffixes: Vec<&'static str>,
}

impl View for Lexicon {
    type V = SpecLexicon;

    open spec fn view(&self) -> SpecLexicon {
        SpecLexicon {
            prefixes: words_view(self.prefixes@),
            roots: words_view(self.roots@),
            suffixes: words_view(self.suffixes@),
            literals: words_view(self.literals@),
            sufsuffixes: words_view(self.sufsuffixes@),
        }
    }
}

/// The vocabulary of the language.
pub open spec fn standard_lexicon() -> SpecLexicon {
    SpecLexicon {
        prefixes: words_view(PREFIX_WORDS@),
        roots: words_view(ROOT_WORDS@),
        suffixes: words_view(SUFFIX_WORDS@),
        literals: words_view(LITERAL_WORDS@),
        sufsuffixes: words_view(SUFSUFFIX_WORDS@),
    }
}

fn word_list(words: &[&'static str]) -> (r: Vec<&'static str>)
    ensures
        r@ == words@,
{
    let mut r: Vec<&'static str> = Vec::new();
    let mut i: usize = 0;
    while i < words.len()
        invariant
            i <= words@.len(),
            r@ == words@.take(i as int),
        decreases words@.len() - i,
    {
        r.push(words[i]);
        i = i + 1;
        assert(r@ =~= words@.take(i as int));
    }
    assert(words@.take(words@.len() as int) =~= words@);
    r
}

impl Lexicon {
    /// The vocabulary of the language.
    pub fn standard() -> (r: Lexicon)
        ensures
            r@ == standard_lexicon(),
    {
        Lexicon {
            prefixes: word_list(&PREFIX_WORDS),
            roots: word_list(&ROOT_WORDS),
            suffixes: word_list(&SUFFIX_WORDS),
            literals: word_list(&LITERAL_WORDS),
            sufsuffixes: word_list(&SUFSUFFIX_WORDS),
        }
    }
}


/// The characters of an optional word.
pub open spec fn opt_view(o: Option<&'static str>) -> Option<Seq<char>> {
    match o {
        Some(w) => Some(w@),
        None => None,
    }
}

/// The characters of an optional part, or nothing where the part is absent.
pub open spec fn opt_chars(o: Option<Seq<char>>) -> Seq<char> {
    match o {
        Some(w) => w,
        None => seq![],
    }
}

/// Each word of a list as a present option, then the absent option last.
pub open spec fn options_of(words: Seq<Seq<char>>) -> Seq<Option<Seq<char>>> {
    words.map_values(|w: Seq<char>| Some(w)).push(None)
}

/// The characters of a list of optional words.
pub open spec fn opts_view(os: Seq<Option<&'static str>>) -> Seq<Option<Seq<char>>> {
    os.map_values(|o: Option<&'static str>| opt_view(o))
}

/// The words that may stand as the root of a word: the content words, then the
/// particles, then the literal syllables.
pub open spec fn root_candidates(lex: SpecLexicon) -> Seq<Seq<char>> {
    lex.roots + lex.suffixes + lex.literals
}

/// A written word split into its parts.
pub struct SpecFeaturedWord {
    pub root: Seq<char>,
    pub prefix: Option<Seq<char>>,
    pub suffix: Option<Seq<char>>,
    pub sufsuffix: Option<Seq<char>>,
}

impl SpecFeaturedWord {
    /// The word that the parts spell, read from left to right.
    pub open spec fn spelling(self) -> Seq<char> {
        opt_chars(self.prefix) + self.root + opt_chars(self.suffix) + opt_chars(self.sufsuffix)
    }

    /// The parts come from the vocabulary and are put together as a word may be:
    /// the suffix differs from the root, and a second suffix only follows a suffix.
    pub open spec fn built_from(self, lex: SpecLexicon) -> bool {
        &&& root_candidates(lex).contains(self.root)
        &&& self.prefix matches Some(p) ==> lex.prefixes.contains(p)
        &&& self.suffix matches Some(s) ==> lex.suffixes.contains(s) && s != self.root
        &&& self.sufsuffix matches Some(t) ==> lex.sufsuffixes.contains(t) && self.suffix is Some
    }
}

/// A written word split into its parts.
#[derive(Clone, Copy)]
pub struct FeaturedWord {
    pub root: &'static str,
    pub prefix: Option<&'static str>,
    pub suffix: Option<&'static str>,
    pub sufsuffix: Option<&'static str>,
}

impl View for FeaturedWord {
    type V = SpecFeaturedWord;

    open spec fn view(&self) -> SpecFeaturedWord {
        SpecFeaturedWord {
            root: self.root@,
            prefix: opt_view(self.prefix),
            suffix: opt_view(self.suffix),
            sufsuffix: opt_view(self.sufsuffix),
        }
    }
}

/// One line of the word table: a spelling and the parts it splits into.
pub struct SpecEntry {
    pub key: Seq<char>,
    pub word: SpecFeaturedWord,
}

/// The table line for the given parts.
pub open spec fn entry_for(
    p: Option<Seq<char>>,
    r: Seq<char>,
    s: Option<Seq<char>>,
    t: Option<Seq<char>>,
) -> SpecEntry {
    let w = SpecFeaturedWord { root: r, prefix: p, suffix: s, sufsuffix: t };
    SpecEntry { key: w.spelling(), word: w }
}

/// The lines for prefix `p`, root `r` and suffix `s`, one per each of the first `n`
/// second-suffix options.
pub open spec fn sufsuffix_run(
    p: Option<Seq<char>>,
    r: Seq<char>,
    s: Seq<char>,
    ts: Seq<Option<Seq<char>>>,
    n: nat,
) -> Seq<SpecEntry>
    decreases n,
{
    if n == 0 {
        seq![]
    } else {
        sufsuffix_run(p, r, s, ts, (n - 1) as nat).push(entry_for(p, r, Some(s), ts[n - 1]))
    }
}

/// The lines for prefix `p`, root `r` and the suffix option `so`. A suffix equal to the
/// root gives none; a suffix gives one line per second-suffix option and then its own
/// line again.
pub open spec fn suffix_run(
    p: Option<Seq<char>>,
    r: Seq<char>,
    so: Option<Seq<char>>,
    ts: Seq<Option<Seq<char>>>,
) -> Seq<SpecEntry> {
    match so {
        None => seq![entry_for(p, r, None, None)],
        Some(s) => if s == r {
            seq![]
        } else {
            sufsuffix_run(p, r, s, ts, ts.len()).push(entry_for(p, r, Some(s), None))
        },
    }
}

/// The lines for prefix `p` and root `r`, over the first `n` suffix options.
pub open spec fn root_run(
    p: Option<Seq<char>>,
    r: Seq<char>,
    ss: Seq<Option<Seq<char>>>,
    ts: Seq<Option<Seq<char>>>,
    n: nat,
) -> Seq<SpecEntry>
    decreases n,
{
    if n == 0 {
        seq![]
    } else {
        root_run(p, r, ss, ts, (n - 1) as nat) + suffix_run(p, r, ss[n - 1], ts)
    }
}

/// The lines for prefix `p`, over the first `n` roots.
pub open spec fn prefix_run(
    p: Option<Seq<char>>,
    rs: Seq<Seq<char>>,
    ss: Seq<Option<Seq<char>>>,
    ts: Seq<Option<Seq<char>>>,
    n: nat,
) -> Seq<SpecEntry>
    decreases n,
{
    if n == 0 {
        seq![]
    } else {
        prefix_run(p, rs, ss, ts, (n - 1) as nat) + root_run(p, rs[n - 1], ss, ts, ss.len())
    }
}

/// The lines over the first `n` prefix options.
pub open spec fn table_run(
    ps: Seq<Option<Seq<char>>>,
    rs: Seq<Seq<char>>,
    ss: Seq<Option<Seq<char>>>,
    ts: Seq<Option<Seq<char>>>,
    n: nat,
) -> Seq<SpecEntry>
    decreases n,
{
    if n == 0 {
        seq![]
    } else {
        table_run(ps, rs, ss, ts, (n - 1) as nat) + prefix_run(ps[n - 1], rs, ss, ts, rs.len())
    }
}

/// Every line of the word table of a vocabulary, in the order in which it is written.
pub open spec fn word_entries(lex: SpecLexicon) -> Seq<SpecEntry> {
    let ps = options_of(lex.prefixes);
    table_run(
        ps,
        root_candidates(lex),
        options_of(lex.suffixes),
        options_of(lex.sufsuffixes),
        ps.len(),
    )
}

/// What a table says a spelling splits into: the last line written with that spelling.
pub open spec fn lookup(entries: Seq<SpecEntry>, key: Seq<char>) -> Option<SpecFeaturedWord>
    decreases entries.len(),
{
    if entries.len() == 0 {
        None
    } else if entries.last().key == key {
        Some(entries.last().word)
    } else {
        lookup(entries.drop_last(), key)
    }
}

/// The map that writing the lines of a table in order builds, a later line with a
/// spelling replacing an earlier one.
pub open spec fn table_map(es: Seq<SpecEntry>) -> Map<Seq<char>, SpecFeaturedWord>
    decreases es.len(),
{
    if es.len() == 0 {
        Map::empty()
    } else {
        table_map(es.drop_last()).insert(es.last().key, es.last().word)
    }
}

proof fn lemma_table_map_push(es: Seq<SpecEntry>, e: SpecEntry)
    ensures
        table_map(es.push(e)) == table_map(es).insert(e.key, e.word),
{
    assert(es.push(e).drop_last() =~= es);
}

/// The parts of the words of a map, as values.
pub open spec fn words_view_map(m: Map<Seq<char>, FeaturedWord>) -> Map<
    Seq<char>,
    SpecFeaturedWord,
> {
    m.map_values(|w: FeaturedWord| w@)
}

proof fn lemma_table_map_lookup(es: Seq<SpecEntry>, key: Seq<char>)
    ensures
        table_map(es).contains_key(key) == (lookup(es, key) is Some),
        lookup(es, key) matches Some(w) ==> table_map(es)[key] == w,
    decreases es.len(),
{
    if es.len() > 0 {
        lemma_table_map_lookup(es.drop_last(), key);
    }
}

/// The table from spellings to the parts of words: a hash map, with the lines that were
/// written into it.
pub struct WordTable {
    map: StringHashMap<FeaturedWord>,
    entries: Ghost<Seq<SpecEntry>>,
}

impl View for WordTable {
    type V = Seq<SpecEntry>;

    closed spec fn view(&self) -> Seq<SpecEntry> {
        self.entries@
    }
}

impl WordTable {
    /// The map holds what writing its lines in order gives.
    #[verifier::type_invariant]
    closed spec fn holds_its_lines(self) -> bool {
        words_view_map(self.map@) == table_map(self.entries@)
    }
}

fn options(words: &Vec<&'static str>) -> (r: Vec<Option<&'static str>>)
    ensures
        opts_view(r@) == options_of(words_view(words@)),
{
    let mut r: Vec<Option<&'static str>> = Vec::new();
    let mut i: usize = 0;
    while i < words.len()
        invariant
            i <= words@.len(),
            r@.len() == i,
            forall|j: int| 0 <= j < i ==> r@[j] == Some(words@[j]),
        decreases words@.len() - i,
    {
        r.push(Some(words[i]));
        i = i + 1;
    }
    r.push(None);
    assert(opts_view(r@) =~= options_of(words_view(words@)));
    r
}

fn root_list(lexicon: &Lexicon) -> (r: Vec<&'static str>)
    ensures
        words_view(r@) == root_candidates(lexicon@),
{
    let mut r: Vec<&'static str> = Vec::new();
    let mut i: usize = 0;
    while i < lexicon.roots.len()
        invariant
            i <= lexicon.roots@.len(),
            r@ == lexicon.roots@.take(i as int),
        decreases lexicon.roots@.len() - i,
    {
        r.push(lexicon.roots[i]);
        i = i + 1;
        assert(r@ =~= lexicon.roots@.take(i as int));
    }
    assert(lexicon.roots@.take(lexicon.roots@.len() as int) =~= lexicon.roots@);
    let mut i: usize = 0;
    while i < lexicon.suffixes.len()
        invariant
            i <= lexicon.suffixes@.len(),
            r@ == lexicon.roots@ + lexicon.suffixes@.take(i as int),
        decreases lexicon.suffixes@.len() - i,
    {
        r.push(lexicon.suffixes[i]);
        i = i + 1;
        assert(r@ =~= lexicon.roots@ + lexicon.suffixes@.take(i as int));
    }
    assert(lexicon.suffixes@.take(lexicon.suffixes@.len() as int) =~= lexicon.suffixes@);
    let mut i: usize = 0;
    while i < lexicon.literals.len()
        invariant
            i <= lexicon.literals@.len(),
            r@ == lexicon.roots@ + lexicon.suffixes@ + lexicon.literals@.take(i as int),
        decreases lexicon.literals@.len() - i,
    {
        r.push(lexicon.literals[i]);
        i = i + 1;
        assert(r@ =~= lexicon.roots@ + lexicon.suffixes@ + lexicon.literals@.take(i as int));
    }
    assert(lexicon.literals@.take(lexicon.literals@.len() as int) =~= lexicon.literals@);
    assert(words_view(r@) =~= root_candidates(lexicon@));
    r
}

fn spell(
    p: Option<&'static str>,
    r: &'static str,
    s: Option<&'static str>,
    t: Option<&'static str>,
) -> (k: String)
    ensures
        k@ == entry_for(opt_view(p), r@, opt_view(s), opt_view(t)).key,
{
    let mut k = String::new();
    if let Some(x) = p {
        k.append(x);
    }
    k.append(r);
    if let Some(x) = s {
        k.append(x);
    }
    if let Some(x) = t {
        k.append(x);
    }
    assert(k@ =~= entry_for(opt_view(p), r@, opt_view(s), opt_view(t)).key);
    k
}

fn push_entry(
    map: &mut StringHashMap<FeaturedWord>,
    p: Option<&'static str>,
    r: &'static str,
    s: Option<&'static str>,
    t: Option<&'static str>,
)
    ensures
        words_view_map(final(map)@) == words_view_map(old(map)@).insert(
            entry_for(opt_view(p), r@, opt_view(s), opt_view(t)).key,
            entry_for(opt_view(p), r@, opt_view(s), opt_view(t)).word,
        ),
{
    let key = spell(p, r, s, t);
    let word = FeaturedWord { root: r, prefix: p, suffix: s, sufsuffix: t };
    map.insert(key, word);
    assert(words_view_map(map@) =~= words_view_map(old(map)@).insert(
        entry_for(opt_view(p), r@, opt_view(s), opt_view(t)).key,
        entry_for(opt_view(p), r@, opt_view(s), opt_view(t)).word,
    ));
}

/// Writes the word table of a vocabulary into a hash map: for each prefix option (each
/// prefix, then none), each root, each suffix option other than the root itself, and
/// after a suffix each second-suffix option, the spelling and its parts; a later spelling
/// replaces an earlier one.
pub fn make_map(lexicon: &Lexicon) -> (t: WordTable)
    ensures
        t@ == word_entries(lexicon@),
{
    let pos = options(&lexicon.prefixes);
    let roots = root_list(lexicon);
    let sos = options(&lexicon.suffixes);
    let tos = options(&lexicon.sufsuffixes);
    let ghost ps = opts_view(pos@);
    let ghost rs = words_view(roots@);
    let ghost ss = opts_view(sos@);
    let ghost ts = opts_view(tos@);
    let mut map: StringHashMap<FeaturedWord> = StringHashMap::new();
    let ghost mut es: Seq<SpecEntry> = seq![];
    assert(words_view_map(map@) =~= table_map(es));
    let mut pi: usize = 0;
    while pi < pos.len()
        invariant
            pi <= pos@.len(),
            ps == opts_view(pos@),
            rs == words_view(roots@),
            ss == opts_view(sos@),
            ts == opts_view(tos@),
            words_view_map(map@) == table_map(es),
            es == table_run(ps, rs, ss, ts, pi as nat),
        decreases pos@.len() - pi,
    {
        let p = pos[pi];
        let ghost base_p = es;
        let mut ri: usize = 0;
        while ri < roots.len()
            invariant
                pi < pos@.len(),
                ri <= roots@.len(),
                p == pos@[pi as int],
                ps == opts_view(pos@),
                rs == words_view(roots@),
                ss == opts_view(sos@),
                ts == opts_view(tos@),
                words_view_map(map@) == table_map(es),
                base_p == table_run(ps, rs, ss, ts, pi as nat),
                es == base_p + prefix_run(ps[pi as int], rs, ss, ts, ri as nat),
            decreases roots@.len() - ri,
        {
            let r = roots[ri];
            let ghost base_r = es;
            let mut si: usize = 0;
            while si < sos.len()
                invariant
                    pi < pos@.len(),
                    ri < roots@.len(),
                    si <= sos@.len(),
                    p == pos@[pi as int],
                    r == roots@[ri as int],
                    ps == opts_view(pos@),
                    rs == words_view(roots@),
                    ss == opts_view(sos@),
                    ts == opts_view(tos@),
                    words_view_map(map@) == table_map(es),
                    base_r == base_p + prefix_run(ps[pi as int], rs, ss, ts, ri as nat),
                    es == base_r + root_run(
                        ps[pi as int],
                        rs[ri as int],
                        ss,
                        ts,
                        si as nat,
                    ),
                decreases sos@.len() - si,
            {
                let ghost base_s = es;
                match sos[si] {
                    None => {
                        push_entry(&mut map, p, r, None, None);
                        proof {
                            let e = entry_for(opt_view(p), r@, None, None);
                            lemma_table_map_push(es, e);
                            es = es.push(e);
                        }
                    },
                    Some(s) => {
                        if !str_eq(s, r) {
                            let mut ti: usize = 0;
                            while ti < tos.len()
                                invariant
                                    pi < pos@.len(),
                                    ri < roots@.len(),
                                    si < sos@.len(),
                                    ti <= tos@.len(),
                                    p == pos@[pi as int],
                                    r == roots@[ri as int],
                                    sos@[si as int] == Some(s),
                                    ps == opts_view(pos@),
                                    rs == words_view(roots@),
                                    ss == opts_view(sos@),
                                    ts == opts_view(tos@),
                                    words_view_map(map@) == table_map(es),
                                    es == base_s + sufsuffix_run(
                                        ps[pi as int],
                                        rs[ri as int],
                                        s@,
                                        ts,
                                        ti as nat,
                                    ),
                                decreases tos@.len() - ti,
                            {
                                push_entry(&mut map, p, r, Some(s), tos[ti]);
                                proof {
                                    let e = entry_for(
                                        opt_view(p),
                                        r@,
                                        Some(s@),
                                        opt_view(tos@[ti as int]),
                                    );
                                    lemma_table_map_push(es, e);
                                    es = es.push(e);
                                }
                                ti = ti + 1;
                                assert(es =~= base_s + sufsuffix_run(
                                    ps[pi as int],
                                    rs[ri as int],
                                    s@,
                                    ts,
                                    ti as nat,
                                ));
                            }
                            push_entry(&mut map, p, r, Some(s), None);
                            proof {
                                let e = entry_for(opt_view(p), r@, Some(s@), None);
                                lemma_table_map_push(es, e);
                                es = es.push(e);
                            }
                        }
                    },
                }
                assert(es =~= base_s + suffix_run(
                    ps[pi as int],
                    rs[ri as int],
                    ss[si as int],
                    ts,
                ));
                si = si + 1;
                assert(es =~= base_r + root_run(
                    ps[pi as int],
                    rs[ri as int],
                    ss,
                    ts,
                    si as nat,
                ));
            }
            ri = ri + 1;
            assert(es =~= base_p + prefix_run(
                ps[pi as int],
                rs,
                ss,
                ts,
                ri as nat,
            ));
        }
        pi = pi + 1;
        assert(es =~= table_run(ps, rs, ss, ts, pi as nat));
    }
    WordTable { map, entries: Ghost(es) }
}

impl WordTable {
    /// The parts that a spelling splits into, by the last line of the table written with
    /// that spelling; `None` where no line has it.
    pub fn get(&self, key: &String) -> (r: Option<FeaturedWord>)
        ensures
            r matches Some(w) ==> lookup(self@, key@) == Some(w@),
            r is None ==> lookup(self@, key@) is None,
    {
        proof {
            use_type_invariant(self);
            lemma_table_map_lookup(self.entries@, key@);
        }
        match self.map.get(key.as_str()) {
            Some(w) => Some(*w),
            None => None,
        }
    }
}


/// Every line of `es` is spelled by its parts, and its parts are built from `lex`.
pub open spec fn lines_spell(lex: SpecLexicon, es: Seq<SpecEntry>) -> bool {
    forall|i: int|
        #![trigger es[i]]
        0 <= i < es.len() ==> es[i].key == es[i].word.spelling() && es[i].word.built_from(lex)
}

/// An optional part is absent or one of `words`.
pub open spec fn opt_in(o: Option<Seq<char>>, words: Seq<Seq<char>>) -> bool {
    o matches Some(x) ==> words.contains(x)
}

proof fn lemma_lines_concat(lex: SpecLexicon, a: Seq<SpecEntry>, b: Seq<SpecEntry>)
    requires
        lines_spell(lex, a),
        lines_spell(lex, b),
    ensures
        lines_spell(lex, a + b),
{
    assert forall|i: int| 0 <= i < (a + b).len() implies (#[trigger] (a + b)[i]).key == (a
        + b)[i].word.spelling() && (a + b)[i].word.built_from(lex) by {
        if i < a.len() {
            assert((a + b)[i] == a[i]);
        } else {
            assert((a + b)[i] == b[i - a.len()]);
        }
    }
}

proof fn lemma_options_in(words: Seq<Seq<char>>, j: int)
    requires
        0 <= j < options_of(words).len(),
    ensures
        opt_in(options_of(words)[j], words),
{
    if j < words.len() {
        assert(options_of(words)[j] == Some(words[j]));
        assert(words.contains(words[j]));
    }
}

proof fn lemma_sufsuffix_run_spells(
    lex: SpecLexicon,
    p: Option<Seq<char>>,
    r: Seq<char>,
    s: Seq<char>,
    n: nat,
)
    requires
        n <= options_of(lex.sufsuffixes).len(),
        opt_in(p, lex.prefixes),
        root_candidates(lex).contains(r),
        lex.suffixes.contains(s),
        s != r,
    ensures
        lines_spell(lex, sufsuffix_run(p, r, s, options_of(lex.sufsuffixes), n)),
    decreases n,
{
    let ts = options_of(lex.sufsuffixes);
    if n > 0 {
        lemma_sufsuffix_run_spells(lex, p, r, s, (n - 1) as nat);
        lemma_options_in(lex.sufsuffixes, n - 1);
        let prev = sufsuffix_run(p, r, s, ts, (n - 1) as nat);
        let e = entry_for(p, r, Some(s), ts[n - 1]);
        assert(lines_spell(lex, seq![e]));
        lemma_lines_concat(lex, prev, seq![e]);
        assert(prev.push(e) =~= prev + seq![e]);
    }
}

proof fn lemma_suffix_run_spells(
    lex: SpecLexicon,
    p: Option<Seq<char>>,
    r: Seq<char>,
    so: Option<Seq<char>>,
)
    requires
        opt_in(p, lex.prefixes),
        root_candidates(lex).contains(r),
        opt_in(so, lex.suffixes),
    ensures
        lines_spell(lex, suffix_run(p, r, so, options_of(lex.sufsuffixes))),
{
    let ts = options_of(lex.sufsuffixes);
    match so {
        None => {
            assert(lines_spell(lex, seq![entry_for(p, r, None, None)]));
        },
        Some(s) => {
            if s != r {
                lemma_sufsuffix_run_spells(lex, p, r, s, ts.len());
                let prev = sufsuffix_run(p, r, s, ts, ts.len());
                let e = entry_for(p, r, Some(s), None);
                assert(lines_spell(lex, seq![e]));
                lemma_lines_concat(lex, prev, seq![e]);
                assert(prev.push(e) =~= prev + seq![e]);
            }
        },
    }
}

proof fn lemma_root_run_spells(lex: SpecLexicon, p: Option<Seq<char>>, r: Seq<char>, n: nat)
    requires
        n <= options_of(lex.suffixes).len(),
        opt_in(p, lex.prefixes),
        root_candidates(lex).contains(r),
    ensures
        lines_spell(
            lex,
            root_run(p, r, options_of(lex.suffixes), options_of(lex.sufsuffixes), n),
        ),
    decreases n,
{
    if n > 0 {
        let ss = options_of(lex.suffixes);
        lemma_root_run_spells(lex, p, r, (n - 1) as nat);
        lemma_options_in(lex.suffixes, n - 1);
        lemma_suffix_run_spells(lex, p, r, ss[n - 1]);
        lemma_lines_concat(
            lex,
            root_run(p, r, ss, options_of(lex.sufsuffixes), (n - 1) as nat),
            suffix_run(p, r, ss[n - 1], options_of(lex.sufsuffixes)),
        );
    }
}

proof fn lemma_prefix_run_spells(lex: SpecLexicon, p: Option<Seq<char>>, n: nat)
    requires
        n <= root_candidates(lex).len(),
        opt_in(p, lex.prefixes),
    ensures
        lines_spell(
            lex,
            prefix_run(
                p,
                root_candidates(lex),
                options_of(lex.suffixes),
                options_of(lex.sufsuffixes),
                n,
            ),
        ),
    decreases n,
{
    if n > 0 {
        let rs = root_candidates(lex);
        let ss = options_of(lex.suffixes);
        let ts = options_of(lex.sufsuffixes);
        lemma_prefix_run_spells(lex, p, (n - 1) as nat);
        assert(rs.contains(rs[n - 1]));
        lemma_root_run_spells(lex, p, rs[n - 1], ss.len());
        lemma_lines_concat(
            lex,
            prefix_run(p, rs, ss, ts, (n - 1) as nat),
            root_run(p, rs[n - 1], ss, ts, ss.len()),
        );
    }
}

proof fn lemma_table_run_spells(lex: SpecLexicon, n: nat)
    requires
        n <= options_of(lex.prefixes).len(),
    ensures
        lines_spell(
            lex,
            table_run(
                options_of(lex.prefixes),
                root_candidates(lex),
                options_of(lex.suffixes),
                options_of(lex.sufsuffixes),
                n,
            ),
        ),
    decreases n,
{
    if n > 0 {
        let ps = options_of(lex.prefixes);
        let rs = root_candidates(lex);
        let ss = options_of(lex.suffixes);
        let ts = options_of(lex.sufsuffixes);
        lemma_table_run_spells(lex, (n - 1) as nat);
        lemma_options_in(lex.prefixes, n - 1);
        lemma_prefix_run_spells(lex, ps[n - 1], rs.len());
        lemma_lines_concat(
            lex,
            table_run(ps, rs, ss, ts, (n - 1) as nat),
            prefix_run(ps[n - 1], rs, ss, ts, rs.len()),
        );
    }
}

proof fn lemma_lookup_is_a_line(es: Seq<SpecEntry>, key: Seq<char>)
    ensures
        lookup(es, key) matches Some(w) ==> exists|i: int|
            0 <= i < es.len() && #[trigger] es[i].word == w && es[i].key == key,
    decreases es.len(),
{
    if es.len() > 0 {
        lemma_lookup_is_a_line(es.drop_last(), key);
        if es.last().key == key {
            assert(es[es.len() - 1].word == es.last().word);
        } else if let Some(w) = lookup(es, key) {
            let i = choose|i: int|
                0 <= i < es.drop_last().len() && #[trigger] es.drop_last()[i].word == w
                    && es.drop_last()[i].key == key;
            assert(es[i] == es.drop_last()[i]);
        }
    }
}

proof fn lemma_line_is_found(es: Seq<SpecEntry>, i: int)
    requires
        0 <= i < es.len(),
    ensures
        lookup(es, es[i].key) is Some,
    decreases es.len(),
{
    if es.last().key != es[i].key {
        assert(i < es.len() - 1);
        assert(es.drop_last()[i] == es[i]);
        lemma_line_is_found(es.drop_last(), i);
    }
}

/// Law: whatever the word table splits a spelling into spells that word again, from
/// parts of the vocabulary put together as a word may be.
pub proof fn lemma_lookup_spells(lex: SpecLexicon, key: Seq<char>)
    ensures
        lookup(word_entries(lex), key) matches Some(w) ==> w.spelling() == key && w.built_from(
            lex,
        ),
{
    let ps = options_of(lex.prefixes);
    lemma_table_run_spells(lex, ps.len());
    lemma_lookup_is_a_line(word_entries(lex), key);
}

proof fn lemma_contains_concat(a: Seq<SpecEntry>, b: Seq<SpecEntry>, x: SpecEntry)
    ensures
        (a.contains(x) || b.contains(x)) ==> (a + b).contains(x),
{
    if a.contains(x) {
        let i = choose|i: int| 0 <= i < a.len() && a[i] == x;
        assert((a + b)[i] == x);
    } else if b.contains(x) {
        let i = choose|i: int| 0 <= i < b.len() && b[i] == x;
        assert((a + b)[a.len() + i] == x);
    }
}

proof fn lemma_options_index(words: Seq<Seq<char>>, o: Option<Seq<char>>) -> (j: int)
    requires
        opt_in(o, words),
    ensures
        0 <= j < options_of(words).len(),
        options_of(words)[j] == o,
{
    match o {
        Some(x) => {
            let j = choose|j: int| 0 <= j < words.len() && words[j] == x;
            j
        },
        None => words.len() as int,
    }
}

proof fn lemma_sufsuffix_run_has(
    p: Option<Seq<char>>,
    r: Seq<char>,
    s: Seq<char>,
    ts: Seq<Option<Seq<char>>>,
    n: nat,
    j: int,
)
    requires
        0 <= j < n <= ts.len(),
    ensures
        sufsuffix_run(p, r, s, ts, n).contains(entry_for(p, r, Some(s), ts[j])),
    decreases n,
{
    let prev = sufsuffix_run(p, r, s, ts, (n - 1) as nat);
    if j == n - 1 {
        assert(sufsuffix_run(p, r, s, ts, n)[prev.len() as int] == entry_for(p, r, Some(s), ts[j]));
    } else {
        lemma_sufsuffix_run_has(p, r, s, ts, (n - 1) as nat, j);
        let k = choose|k: int| 0 <= k < prev.len() && prev[k] == entry_for(p, r, Some(s), ts[j]);
        assert(sufsuffix_run(p, r, s, ts, n)[k] == prev[k]);
    }
}

proof fn lemma_root_run_has(
    p: Option<Seq<char>>,
    r: Seq<char>,
    ss: Seq<Option<Seq<char>>>,
    ts: Seq<Option<Seq<char>>>,
    n: nat,
    j: int,
    x: SpecEntry,
)
    requires
        0 <= j < n <= ss.len(),
        suffix_run(p, r, ss[j], ts).contains(x),
    ensures
        root_run(p, r, ss, ts, n).contains(x),
    decreases n,
{
    let prev = root_run(p, r, ss, ts, (n - 1) as nat);
    if j < n - 1 {
        lemma_root_run_has(p, r, ss, ts, (n - 1) as nat, j, x);
    }
    lemma_contains_concat(prev, suffix_run(p, r, ss[n - 1], ts), x);
}

proof fn lemma_prefix_run_has(
    p: Option<Seq<char>>,
    rs: Seq<Seq<char>>,
    ss: Seq<Option<Seq<char>>>,
    ts: Seq<Option<Seq<char>>>,
    n: nat,
    j: int,
    x: SpecEntry,
)
    requires
        0 <= j < n <= rs.len(),
        root_run(p, rs[j], ss, ts, ss.len()).contains(x),
    ensures
        prefix_run(p, rs, ss, ts, n).contains(x),
    decreases n,
{
    let prev = prefix_run(p, rs, ss, ts, (n - 1) as nat);
    if j < n - 1 {
        lemma_prefix_run_has(p, rs, ss, ts, (n - 1) as nat, j, x);
    }
    lemma_contains_concat(prev, root_run(p, rs[n - 1], ss, ts, ss.len()), x);
}

proof fn lemma_table_run_has(
    ps: Seq<Option<Seq<char>>>,
    rs: Seq<Seq<char>>,
    ss: Seq<Option<Seq<char>>>,
    ts: Seq<Option<Seq<char>>>,
    n: nat,
    j: int,
    x: SpecEntry,
)
    requires
        0 <= j < n <= ps.len(),
        prefix_run(ps[j], rs, ss, ts, rs.len()).contains(x),
    ensures
        table_run(ps, rs, ss, ts, n).contains(x),
    decreases n,
{
    let prev = table_run(ps, rs, ss, ts, (n - 1) as nat);
    if j < n - 1 {
        lemma_table_run_has(ps, rs, ss, ts, (n - 1) as nat, j, x);
    }
    lemma_contains_concat(prev, prefix_run(ps[n - 1], rs, ss, ts, rs.len()), x);
}

proof fn lemma_word_in_its_prefix_run(lex: SpecLexicon, w: SpecFeaturedWord)
    requires
        w.built_from(lex),
    ensures
        prefix_run(
            w.prefix,
            root_candidates(lex),
            options_of(lex.suffixes),
            options_of(lex.sufsuffixes),
            root_candidates(lex).len(),
        ).contains(entry_for(w.prefix, w.root, w.suffix, w.sufsuffix)),
        root_run(
            w.prefix,
            w.root,
            options_of(lex.suffixes),
            options_of(lex.sufsuffixes),
            options_of(lex.suffixes).len(),
        ).contains(entry_for(w.prefix, w.root, w.suffix, w.sufsuffix)),
{
    let rs = root_candidates(lex);
    let ss = options_of(lex.suffixes);
    let ts = options_of(lex.sufsuffixes);
    let x = entry_for(w.prefix, w.root, w.suffix, w.sufsuffix);
    // the line sits in the run of its suffix option
    match w.suffix {
        None => {
            assert(suffix_run(w.prefix, w.root, None, ts)[0] == x);
        },
        Some(s) => {
            let tj = lemma_options_index(lex.sufsuffixes, w.sufsuffix);
            let run = sufsuffix_run(w.prefix, w.root, s, ts, ts.len());
            match w.sufsuffix {
                Some(_) => {
                    lemma_sufsuffix_run_has(w.prefix, w.root, s, ts, ts.len(), tj);
                    let k = choose|k: int| 0 <= k < run.len() && run[k] == x;
                    assert(suffix_run(w.prefix, w.root, Some(s), ts)[k] == x);
                },
                None => {
                    assert(suffix_run(w.prefix, w.root, Some(s), ts)[run.len() as int] == x);
                },
            }
        },
    }
    let sj = lemma_options_index(lex.suffixes, w.suffix);
    lemma_root_run_has(w.prefix, w.root, ss, ts, ss.len(), sj, x);
    let rj = choose|j: int| 0 <= j < rs.len() && rs[j] == w.root;
    lemma_prefix_run_has(w.prefix, rs, ss, ts, rs.len(), rj, x);
}

/// Law: every word that is put together from the vocabulary as a word may be is in
/// the word table.
pub proof fn lemma_lookup_finds(lex: SpecLexicon, w: SpecFeaturedWord)
    requires
        w.built_from(lex),
    ensures
        lookup(word_entries(lex), w.spelling()) is Some,
{
    let ps = options_of(lex.prefixes);
    let rs = root_candidates(lex);
    let ss = options_of(lex.suffixes);
    let ts = options_of(lex.sufsuffixes);
    let x = entry_for(w.prefix, w.root, w.suffix, w.sufsuffix);
    assert(x.word == w);
    lemma_word_in_its_prefix_run(lex, w);
    let pj = lemma_options_index(lex.prefixes, w.prefix);
    lemma_table_run_has(ps, rs, ss, ts, ps.len(), pj, x);
    let es = word_entries(lex);
    let i = choose|i: int| 0 <= i < es.len() && es[i] == x;
    lemma_line_is_found(es, i);
}

/// Every line of `es` has prefix option `p`.
pub open spec fn lines_prefixed(es: Seq<SpecEntry>, p: Option<Seq<char>>) -> bool {
    forall|i: int| #![trigger es[i]] 0 <= i < es.len() ==> es[i].word.prefix == p
}

proof fn lemma_prefixed_concat(a: Seq<SpecEntry>, b: Seq<SpecEntry>, p: Option<Seq<char>>)
    requires
        lines_prefixed(a, p),
        lines_prefixed(b, p),
    ensures
        lines_prefixed(a + b, p),
{
    assert forall|i: int| 0 <= i < (a + b).len() implies (#[trigger] (a + b)[i]).word.prefix
        == p by {
        if i < a.len() {
            assert((a + b)[i] == a[i]);
        } else {
            assert((a + b)[i] == b[i - a.len()]);
        }
    }
}

proof fn lemma_sufsuffix_run_prefixed(
    p: Option<Seq<char>>,
    r: Seq<char>,
    s: Seq<char>,
    ts: Seq<Option<Seq<char>>>,
    n: nat,
)
    ensures
        lines_prefixed(sufsuffix_run(p, r, s, ts, n), p),
    decreases n,
{
    if n > 0 {
        lemma_sufsuffix_run_prefixed(p, r, s, ts, (n - 1) as nat);
        let prev = sufsuffix_run(p, r, s, ts, (n - 1) as nat);
        let e = entry_for(p, r, Some(s), ts[n - 1]);
        assert(lines_prefixed(seq![e], p));
        lemma_prefixed_concat(prev, seq![e], p);
        assert(prev.push(e) =~= prev + seq![e]);
    }
}

proof fn lemma_root_run_prefixed(
    p: Option<Seq<char>>,
    r: Seq<char>,
    ss: Seq<Option<Seq<char>>>,
    ts: Seq<Option<Seq<char>>>,
    n: nat,
)
    requires
        n <= ss.len(),
    ensures
        lines_prefixed(root_run(p, r, ss, ts, n), p),
    decreases n,
{
    if n > 0 {
        lemma_root_run_prefixed(p, r, ss, ts, (n - 1) as nat);
        let run = suffix_run(p, r, ss[n - 1], ts);
        match ss[n - 1] {
            None => {
                assert(lines_prefixed(run, p));
            },
            Some(s) => {
                if s != r {
                    lemma_sufsuffix_run_prefixed(p, r, s, ts, ts.len());
                    let prev = sufsuffix_run(p, r, s, ts, ts.len());
                    let e = entry_for(p, r, Some(s), None);
                    assert(lines_prefixed(seq![e], p));
                    lemma_prefixed_concat(prev, seq![e], p);
                    assert(prev.push(e) =~= prev + seq![e]);
                } else {
                    assert(lines_prefixed(run, p));
                }
            },
        }
        lemma_prefixed_concat(root_run(p, r, ss, ts, (n - 1) as nat), run, p);
    }
}

proof fn lemma_prefix_run_prefixed(
    p: Option<Seq<char>>,
    rs: Seq<Seq<char>>,
    ss: Seq<Option<Seq<char>>>,
    ts: Seq<Option<Seq<char>>>,
    n: nat,
)
    requires
        n <= rs.len(),
    ensures
        lines_prefixed(prefix_run(p, rs, ss, ts, n), p),
    decreases n,
{
    if n > 0 {
        lemma_prefix_run_prefixed(p, rs, ss, ts, (n - 1) as nat);
        lemma_root_run_prefixed(p, rs[n - 1], ss, ts, ss.len());
        lemma_prefixed_concat(
            prefix_run(p, rs, ss, ts, (n - 1) as nat),
            root_run(p, rs[n - 1], ss, ts, ss.len()),
            p,
        );
    }
}

proof fn lemma_lookup_in_later_part(a: Seq<SpecEntry>, b: Seq<SpecEntry>, key: Seq<char>)
    requires
        lookup(b, key) is Some,
    ensures
        lookup(a + b, key) == lookup(b, key),
    decreases b.len(),
{
    assert((a + b).last() == b.last());
    assert((a + b).drop_last() =~= a + b.drop_last());
    if b.last().key != key {
        lemma_lookup_in_later_part(a, b.drop_last(), key);
    }
}

/// Law: a spelling that reads as a word without a prefix splits without a prefix, though
/// it may also read as a prefix and a word: the unprefixed lines come last in the table.
pub proof fn lemma_unprefixed_reading_wins(lex: SpecLexicon, w: SpecFeaturedWord)
    requires
        w.built_from(lex),
        w.prefix is None,
    ensures
        lookup(word_entries(lex), w.spelling()) matches Some(v) && v.prefix is None,
{
    let ps = options_of(lex.prefixes);
    let rs = root_candidates(lex);
    let ss = options_of(lex.suffixes);
    let ts = options_of(lex.sufsuffixes);
    let n = ps.len();
    assert(ps[n - 1] == None::<Seq<char>>);
    let before = table_run(ps, rs, ss, ts, (n - 1) as nat);
    let last = prefix_run(None, rs, ss, ts, rs.len());
    assert(word_entries(lex) == before + last);
    let x = entry_for(w.prefix, w.root, w.suffix, w.sufsuffix);
    lemma_word_in_its_prefix_run(lex, w);
    let i = choose|i: int| 0 <= i < last.len() && last[i] == x;
    lemma_line_is_found(last, i);
    lemma_lookup_in_later_part(before, last, w.spelling());
    lemma_lookup_is_a_line(last, w.spelling());
    lemma_prefix_run_prefixed(None, rs, ss, ts, rs.len());
}

/// Every line of `es` has root `r`.
pub open spec fn lines_rooted(es: Seq<SpecEntry>, r: Seq<char>) -> bool {
    forall|i: int| #![trigger es[i]] 0 <= i < es.len() ==> es[i].word.root == r
}

proof fn lemma_rooted_concat(a: Seq<SpecEntry>, b: Seq<SpecEntry>, r: Seq<char>)
    requires
        lines_rooted(a, r),
        lines_rooted(b, r),
    ensures
        lines_rooted(a + b, r),
{
    assert forall|i: int| 0 <= i < (a + b).len() implies (#[trigger] (a + b)[i]).word.root
        == r by {
        if i < a.len() {
            assert((a + b)[i] == a[i]);
        } else {
            assert((a + b)[i] == b[i - a.len()]);
        }
    }
}

proof fn lemma_root_run_rooted(
    p: Option<Seq<char>>,
    r: Seq<char>,
    ss: Seq<Option<Seq<char>>>,
    ts: Seq<Option<Seq<char>>>,
    n: nat,
)
    requires
        n <= ss.len(),
    ensures
        lines_rooted(root_run(p, r, ss, ts, n), r),
    decreases n,
{
    if n > 0 {
        lemma_root_run_rooted(p, r, ss, ts, (n - 1) as nat);
        let run = suffix_run(p, r, ss[n - 1], ts);
        match ss[n - 1] {
            None => {
                assert(lines_rooted(run, r));
            },
            Some(s) => {
                if s != r {
                    lemma_sufsuffix_run_rooted(p, r, s, ts, ts.len());
                    let prev = sufsuffix_run(p, r, s, ts, ts.len());
                    let e = entry_for(p, r, Some(s), None);
                    assert(lines_rooted(seq![e], r));
                    lemma_rooted_concat(prev, seq![e], r);
                    assert(prev.push(e) =~= prev + seq![e]);
                } else {
                    assert(lines_rooted(run, r));
                }
            },
        }
        lemma_rooted_concat(root_run(p, r, ss, ts, (n - 1) as nat), run, r);
    }
}

proof fn lemma_sufsuffix_run_rooted(
    p: Option<Seq<char>>,
    r: Seq<char>,
    s: Seq<char>,
    ts: Seq<Option<Seq<char>>>,
    n: nat,
)
    ensures
        lines_rooted(sufsuffix_run(p, r, s, ts, n), r),
    decreases n,
{
    if n > 0 {
        lemma_sufsuffix_run_rooted(p, r, s, ts, (n - 1) as nat);
        let prev = sufsuffix_run(p, r, s, ts, (n - 1) as nat);
        let e = entry_for(p, r, Some(s), ts[n - 1]);
        assert(lines_rooted(seq![e], r));
        lemma_rooted_concat(prev, seq![e], r);
        assert(prev.push(e) =~= prev + seq![e]);
    }
}

proof fn lemma_lookup_skips(a: Seq<SpecEntry>, b: Seq<SpecEntry>, key: Seq<char>)
    requires
        forall|i: int| 0 <= i < b.len() ==> (#[trigger] b[i]).key != key,
    ensures
        lookup(a + b, key) == lookup(a, key),
    decreases b.len(),
{
    if b.len() == 0 {
        assert(a + b =~= a);
    } else {
        assert((a + b).last() == b.last());
        assert((a + b).drop_last() =~= a + b.drop_last());
        assert forall|i: int| 0 <= i < b.drop_last().len() implies (#[trigger] b.drop_last()[
            i]).key != key by {
            assert(b.drop_last()[i] == b[i]);
        }
        lemma_lookup_skips(a, b.drop_last(), key);
    }
}

/// The written word `k` has no unprefixed reading whose root is a particle, a literal, or
/// a content word listed after position `j`.
pub open spec fn no_later_reading(lex: SpecLexicon, k: Seq<char>, j: int) -> bool {
    &&& forall|w: SpecFeaturedWord, i: int|
        #![trigger w.built_from(lex), lex.roots[i]]
        j < i < lex.roots.len() && w.root == lex.roots[i] && w.built_from(lex) && w.prefix is None
            && w.spelling() == k ==> false
    &&& forall|w: SpecFeaturedWord|
        #![trigger w.built_from(lex)]
        (lex.suffixes.contains(w.root) || lex.literals.contains(w.root)) && w.built_from(lex)
            && w.prefix is None && w.spelling() == k ==> false
}

proof fn lemma_root_prefix_run_finds(lex: SpecLexicon, j: int, m: nat)
    requires
        0 <= j < lex.roots.len(),
        j < m <= root_candidates(lex).len(),
        no_later_reading(lex, lex.roots[j], j),
    ensures
        lookup(
            prefix_run(
                None,
                root_candidates(lex),
                options_of(lex.suffixes),
                options_of(lex.sufsuffixes),
                m,
            ),
            lex.roots[j],
        ) == Some(
            SpecFeaturedWord { root: lex.roots[j], prefix: None, suffix: None, sufsuffix: None },
        ),
    decreases m,
{
    let rs = root_candidates(lex);
    let ss = options_of(lex.suffixes);
    let ts = options_of(lex.sufsuffixes);
    let k = lex.roots[j];
    let prev = prefix_run(None, rs, ss, ts, (m - 1) as nat);
    let run = root_run(None, rs[m - 1], ss, ts, ss.len());
    assert(prefix_run(None, rs, ss, ts, m) == prev + run);
    if m == j + 1 {
        assert(rs[j] == k);
        assert(ss[ss.len() - 1] == None::<Seq<char>>);
        let e = entry_for(None, k, None, None);
        assert(suffix_run(None, k, None, ts) == seq![e]);
        assert(run == root_run(None, k, ss, ts, (ss.len() - 1) as nat) + seq![e]);
        assert((prev + run).last() == e);
        assert(e.key =~= k);
    } else {
        lemma_root_prefix_run_finds(lex, j, (m - 1) as nat);
        let r = rs[m - 1];
        assert(rs.contains(r));
        lemma_root_run_spells(lex, None, r, ss.len());
        lemma_root_run_prefixed(None, r, ss, ts, ss.len());
        lemma_root_run_rooted(None, r, ss, ts, ss.len());
        assert forall|i: int| 0 <= i < run.len() implies (#[trigger] run[i]).key != k by {
            if run[i].key == k {
                let w = run[i].word;
                assert(w.built_from(lex) && w.prefix is None && w.spelling() == k);
                let q = m - 1;
                if q < lex.roots.len() {
                    assert(lex.roots[q] == r);
                } else if q < lex.roots.len() + lex.suffixes.len() {
                    assert(lex.suffixes[q - lex.roots.len()] == r);
                    assert(lex.suffixes.contains(w.root));
                } else {
                    assert(lex.literals[q - lex.roots.len() - lex.suffixes.len()] == r);
                    assert(lex.literals.contains(w.root));
                }
            }
        }
        lemma_lookup_skips(prev, run, k);
    }
}

/// Law: a content word read on its own, with no unprefixed reading as a particle, a
/// literal or a content word listed after it, splits as that content word alone, with no
/// prefix and no suffix, even where it also reads as an earlier content word and a suffix
/// (`ona` and `o` with `na`). Content words listed later win over earlier ones.
pub proof fn lemma_later_root_wins(lex: SpecLexicon, j: int)
    requires
        0 <= j < lex.roots.len(),
        no_later_reading(lex, lex.roots[j], j),
    ensures
        lookup(word_entries(lex), lex.roots[j]) == Some(
            SpecFeaturedWord { root: lex.roots[j], prefix: None, suffix: None, sufsuffix: None },
        ),
{
    let ps = options_of(lex.prefixes);
    let rs = root_candidates(lex);
    let ss = options_of(lex.suffixes);
    let ts = options_of(lex.sufsuffixes);
    let n = ps.len();
    assert(ps[n - 1] == None::<Seq<char>>);
    let before = table_run(ps, rs, ss, ts, (n - 1) as nat);
    let last = prefix_run(None, rs, ss, ts, rs.len());
    assert(word_entries(lex) == before + last);
    lemma_root_prefix_run_finds(lex, j, rs.len());
    lemma_lookup_in_later_part(before, last, lex.roots[j]);
}

proof fn lemma_lookup_from_group(lex: SpecLexicon, k: Seq<char>, q: int, m: nat)
    requires
        0 <= q < m <= root_candidates(lex).len(),
        exists|i: int|
            0 <= i < root_run(
                None,
                root_candidates(lex)[q],
                options_of(lex.suffixes),
                options_of(lex.sufsuffixes),
                options_of(lex.suffixes).len(),
            ).len() && (#[trigger] root_run(
                None,
                root_candidates(lex)[q],
                options_of(lex.suffixes),
                options_of(lex.sufsuffixes),
                options_of(lex.suffixes).len(),
            )[i]).key == k,
    ensures
        lookup(
            prefix_run(
                None,
                root_candidates(lex),
                options_of(lex.suffixes),
                options_of(lex.sufsuffixes),
                m,
            ),
            k,
        ) matches Some(v) && exists|q2: int|
            q <= q2 < m && #[trigger] root_candidates(lex)[q2] == v.root,
    decreases m,
{
    let rs = root_candidates(lex);
    let ss = options_of(lex.suffixes);
    let ts = options_of(lex.sufsuffixes);
    let prev = prefix_run(None, rs, ss, ts, (m - 1) as nat);
    let run = root_run(None, rs[m - 1], ss, ts, ss.len());
    assert(prefix_run(None, rs, ss, ts, m) == prev + run);
    lemma_root_run_rooted(None, rs[m - 1], ss, ts, ss.len());
    let found = exists|i: int| 0 <= i < run.len() && (#[trigger] run[i]).key == k;
    if found {
        let i = choose|i: int| 0 <= i < run.len() && (#[trigger] run[i]).key == k;
        lemma_line_is_found(run, i);
        lemma_lookup_in_later_part(prev, run, k);
        lemma_lookup_is_a_line(run, k);
        assert(rs[m - 1] == lookup(run, k)->Some_0.root);
    } else {
        assert(q < m - 1);
        lemma_lookup_from_group(lex, k, q, (m - 1) as nat);
        lemma_lookup_skips(prev, run, k);
    }
}

proof fn lemma_reading_from_group(lex: SpecLexicon, w: SpecFeaturedWord, q: int)
    requires
        w.built_from(lex),
        w.prefix is None,
        0 <= q < root_candidates(lex).len(),
        root_candidates(lex)[q] == w.root,
    ensures
        lookup(word_entries(lex), w.spelling()) matches Some(v) && v.prefix is None
            && v.built_from(lex) && v.spelling() == w.spelling() && exists|q2: int|
            q <= q2 < root_candidates(lex).len() && #[trigger] root_candidates(lex)[q2]
                == v.root,
{
    let ps = options_of(lex.prefixes);
    let rs = root_candidates(lex);
    let ss = options_of(lex.suffixes);
    let ts = options_of(lex.sufsuffixes);
    let n = ps.len();
    assert(ps[n - 1] == None::<Seq<char>>);
    let before = table_run(ps, rs, ss, ts, (n - 1) as nat);
    let last = prefix_run(None, rs, ss, ts, rs.len());
    assert(word_entries(lex) == before + last);
    let k = w.spelling();
    let x = entry_for(w.prefix, w.root, w.suffix, w.sufsuffix);
    lemma_word_in_its_prefix_run(lex, w);
    let run = root_run(None, rs[q], ss, ts, ss.len());
    let i = choose|i: int| 0 <= i < run.len() && run[i] == x;
    assert(run[i].key == k);
    lemma_lookup_from_group(lex, k, q, rs.len());
    lemma_lookup_in_later_part(before, last, k);
    lemma_prefix_run_spells(lex, None, rs.len());
    lemma_prefix_run_prefixed(None, rs, ss, ts, rs.len());
    lemma_lookup_is_a_line(last, k);
}

/// Law: a word that reads, without a prefix, as a particle with its suffixes splits as a
/// particle with its suffixes, unless it also reads as a literal: a particle reading wins
/// over any reading from a content word (`supa` is `su` and `pa`).
pub proof fn lemma_particle_reading_wins(lex: SpecLexicon, w: SpecFeaturedWord)
    requires
        w.built_from(lex),
        w.prefix is None,
        lex.suffixes.contains(w.root),
        forall|u: SpecFeaturedWord|
            #![trigger u.built_from(lex)]
            lex.literals.contains(u.root) && u.built_from(lex) && u.prefix is None
                && u.spelling() == w.spelling() ==> false,
    ensures
        lookup(word_entries(lex), w.spelling()) matches Some(v) && v.prefix is None
            && lex.suffixes.contains(v.root),
{
    let si = choose|i: int| 0 <= i < lex.suffixes.len() && lex.suffixes[i] == w.root;
    let q = lex.roots.len() + si;
    let rs = root_candidates(lex);
    assert(rs[q] == w.root);
    lemma_reading_from_group(lex, w, q);
    let v = lookup(word_entries(lex), w.spelling())->Some_0;
    let q2 = choose|q2: int| q <= q2 < rs.len() && #[trigger] rs[q2] == v.root;
    if q2 < lex.roots.len() + lex.suffixes.len() {
        assert(lex.suffixes[q2 - lex.roots.len()] == v.root);
    } else {
        assert(lex.literals[q2 - lex.roots.len() - lex.suffixes.len()] == v.root);
        assert(lex.literals.contains(v.root));
    }
}

/// Law: a word that reads, without a prefix, as a literal syllable with its suffixes splits
/// as a literal: literal readings win over readings from content words and particles.
pub proof fn lemma_literal_reading_wins(lex: SpecLexicon, w: SpecFeaturedWord)
    requires
        w.built_from(lex),
        w.prefix is None,
        lex.literals.contains(w.root),
    ensures
        lookup(word_entries(lex), w.spelling()) matches Some(v) && v.prefix is None
            && lex.literals.contains(v.root),
{
    let li = choose|i: int| 0 <= i < lex.literals.len() && lex.literals[i] == w.root;
    let q = lex.roots.len() + lex.suffixes.len() + li;
    let rs = root_candidates(lex);
    assert(rs[q] == w.root);
    lemma_reading_from_group(lex, w, q);
    let v = lookup(word_entries(lex), w.spelling())->Some_0;
    let q2 = choose|q2: int| q <= q2 < rs.len() && #[trigger] rs[q2] == v.root;
    assert(lex.literals[q2 - lex.roots.len() - lex.suffixes.len()] == v.root);
}

} // verus!
