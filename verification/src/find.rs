//! Finding the symbols of a file that answer a query.

use vstd::prelude::*;
use vstd::slice::slice_to_vec;
use vstd::string::StringSliceAdditionalSpecFns;

use crate::body::extract_body;
use crate::capped::{
    capped, concat_all, lemma_capped_at_limit, lemma_capped_below_limit, lemma_concat_prefix,
    lemma_concat_step,
};
use crate::language::Language;
use crate::matching::{name_matches, symbol_name_matches};
use crate::parsed::ParsedFile;
use crate::symbols::{symbols_view, FileSymbol, Symbol, SymbolKind};
use crate::text::{bytes_eq, texts_of};
use crate::unicode::{lowercase, to_lowercase};

verus! {

/// How many results a search gives when no limit is asked for.
pub const DEFAULT_MAX_RESULTS: usize = 50;

/// Whether a search that holds `count` results has reached its limit of
/// `max_results`.
pub fn limit_reached(count: usize, max_results: usize) -> (r: bool)
    ensures
        r == (count >= max_results),
{
    count >= max_results
}

/// Whether part of a name is enough when nothing else is asked for: it is.
pub fn default_true() -> (r: bool)
    ensures
        r,
{
    true
}

/// What is asked of the symbols of a file.
pub struct SymbolQuery {
    /// The name, or part of a name, to look for.
    pub name: Vec<u8>,
    /// Whether a name that holds `name` answers, or only one equal to it.
    pub match_substring: bool,
    pub case_sensitive: bool,
    /// Whether the text of the body is wanted as well.
    pub include_body: bool,
    /// The kinds to keep, in lower case; all kinds when `None`.
    pub kinds: Option<Vec<Vec<u8>>>,
    pub max_results: usize,
}

/// A query as a mathematical value.
pub struct Query {
    pub name: Seq<u8>,
    pub match_substring: bool,
    pub case_sensitive: bool,
    pub include_body: bool,
    pub kinds: Option<Seq<Seq<u8>>>,
    pub max_results: nat,
}

impl View for SymbolQuery {
    type V = Query;

    open spec fn view(&self) -> Query {
        Query {
            name: self.name@,
            match_substring: self.match_substring,
            case_sensitive: self.case_sensitive,
            include_body: self.include_body,
            kinds: match self.kinds {
                Some(kinds) => Some(texts_of(kinds@)),
                None => None,
            },
            max_results: self.max_results as nat,
        }
    }
}

/// Each of `kinds` in lower case.
pub open spec fn lowercase_all(kinds: Seq<Seq<u8>>) -> Seq<Seq<u8>> {
    kinds.map_values(|k: Seq<u8>| lowercase(k))
}

impl SymbolQuery {
    /// A query for `name` with the usual settings: part of a name is
    /// enough, case is ignored, bodies are left out, every kind is kept, and
    /// at most 50 results are given.
    pub fn new(name: &[u8]) -> (r: SymbolQuery)
        ensures
            r@ == (Query {
                name: name@,
                match_substring: true,
                case_sensitive: false,
                include_body: false,
                kinds: None,
                max_results: DEFAULT_MAX_RESULTS as nat,
            }),
    {
        SymbolQuery {
            name: slice_to_vec(name),
            match_substring: default_true(),
            case_sensitive: false,
            include_body: false,
            kinds: None,
            max_results: DEFAULT_MAX_RESULTS,
        }
    }

    /// Keeps only symbols of the given kinds, whatever the case in which
    /// they are written.
    pub fn restrict_kinds(&mut self, kinds: &Vec<Vec<u8>>)
        ensures
            final(self)@ == (Query { kinds: Some(lowercase_all(texts_of(kinds@))), ..old(self)@ }),
    {
        let mut lowered: Vec<Vec<u8>> = Vec::new();
        let mut i: usize = 0;
        while i < kinds.len()
            invariant
                i <= kinds@.len(),
                texts_of(lowered@) == lowercase_all(texts_of(kinds@)).take(i as int),
            decreases kinds.len() - i,
        {
            let lower = to_lowercase(kinds[i].as_slice());
            let ghost before = lowered@;
            lowered.push(lower);
            proof {
                assert(texts_of(lowered@) =~= texts_of(before).push(lower@));
                assert(texts_of(lowered@) =~= lowercase_all(texts_of(kinds@)).take(i + 1));
            }
            i += 1;
        }
        proof {
            assert(lowercase_all(texts_of(kinds@)).take(kinds@.len() as int) =~= lowercase_all(
                texts_of(kinds@),
            ));
        }
        self.kinds = Some(lowered);
    }
}

/// A symbol that answers a query, as a mathematical value.
pub struct SymbolHit {
    pub name: Seq<u8>,
    pub kind: SymbolKind,
    pub line: int,
    pub column: int,
    pub signature: Seq<u8>,
    pub language: Language,
    pub body: Option<Seq<u8>>,
}

/// A symbol that answers a query.
pub struct SymbolMatch {
    pub name: Vec<u8>,
    pub kind: SymbolKind,
    pub line: usize,
    pub column: usize,
    pub signature: Vec<u8>,
    pub language: Language,
    /// The text of the body, where it was asked for and the symbol has one.
    pub body: Option<Vec<u8>>,
}

impl View for SymbolMatch {
    type V = SymbolHit;

    open spec fn view(&self) -> SymbolHit {
        SymbolHit {
            name: self.name@,
            kind: self.kind,
            line: self.line as int,
            column: self.column as int,
            signature: self.signature@,
            language: self.language,
            body: match self.body {
                Some(text) => Some(text@),
                None => None,
            },
        }
    }
}

/// The hits that a vector holds.
pub open spec fn matches_view(v: Seq<SymbolMatch>) -> Seq<SymbolHit> {
    v.map_values(|m: SymbolMatch| m@)
}

/// The label of a kind, as bytes.
pub open spec fn label_bytes(kind: SymbolKind) -> Seq<u8> {
    vstd::utf8::encode_utf8(kind.label())
}

/// One of `kinds` is `label`.
pub open spec fn holds_text(kinds: Seq<Seq<u8>>, label: Seq<u8>) -> bool
    decreases kinds.len(),
{
    kinds.len() > 0 && (kinds.last() == label || holds_text(kinds.drop_last(), label))
}

/// Whether a symbol of `kind` is kept: always without kinds to keep, and
/// else when the label of its kind, in lower case, is one of them.
pub open spec fn kind_allowed(kind: SymbolKind, kinds: Option<Seq<Seq<u8>>>) -> bool {
    match kinds {
        Some(kept) => holds_text(kept, lowercase(label_bytes(kind))),
        None => true,
    }
}

/// Whether `symbol` answers `query`: its kind is kept and its name matches.
pub open spec fn is_selected(symbol: Symbol, query: Query) -> bool {
    kind_allowed(symbol.kind, query.kinds) && name_matches(
        symbol.name,
        query.name,
        query.match_substring,
        query.case_sensitive,
    )
}

/// What is reported of a symbol found in a file.
pub open spec fn hit_of(symbol: Symbol, language: Language, content: Seq<u8>, include_body: bool) -> SymbolHit {
    SymbolHit {
        name: symbol.name,
        kind: symbol.kind,
        line: symbol.line,
        column: symbol.column,
        signature: symbol.signature,
        language,
        body: if include_body {
            symbol.body.text_in(content)
        } else {
            None
        },
    }
}

/// What one symbol adds to the results: itself when it answers the query.
pub open spec fn hits_of_symbol(symbol: Symbol, language: Language, content: Seq<u8>, query: Query) -> Seq<
    SymbolHit,
> {
    if is_selected(symbol, query) {
        seq![hit_of(symbol, language, content, query.include_body)]
    } else {
        Seq::empty()
    }
}

/// The symbols of a file that answer `query`, in the order of the file.
pub open spec fn file_hits(
    symbols: Seq<Symbol>,
    language: Language,
    content: Seq<u8>,
    query: Query,
) -> Seq<SymbolHit> {
    concat_all(
        Seq::new(symbols.len(), |i: int| hits_of_symbol(symbols[i], language, content, query)),
    )
}

/// Whether one of `kinds` is `label`.
fn kinds_hold(kinds: &Vec<Vec<u8>>, label: &[u8]) -> (r: bool)
    ensures
        r == holds_text(texts_of(kinds@), label@),
{
    let ghost all = texts_of(kinds@);
    let mut i: usize = kinds.len();
    proof {
        assert(all.take(i as int) =~= all);
    }
    while i > 0
        invariant
            i <= kinds@.len(),
            all == texts_of(kinds@),
            holds_text(all, label@) == holds_text(all.take(i as int), label@),
        decreases i,
    {
        proof {
            assert(all.take(i as int).last() == kinds@[i - 1]@);
            assert(all.take(i as int).drop_last() =~= all.take(i - 1));
        }
        if bytes_eq(kinds[i - 1].as_slice(), label) {
            return true;
        }
        i -= 1;
    }
    false
}

/// Whether `symbol` answers `query`.
pub fn symbol_is_selected(symbol: &FileSymbol, query: &SymbolQuery) -> (r: bool)
    ensures
        r == is_selected(symbol@, query@),
{
    let allowed = match &query.kinds {
        Some(kinds) => {
            let label = to_lowercase(symbol.kind.as_str().as_bytes());
            kinds_hold(kinds, label.as_slice())
        },
        None => true,
    };
    allowed && symbol_name_matches(
        symbol.name.as_slice(),
        query.name.as_slice(),
        query.match_substring,
        query.case_sensitive,
    )
}

/// Adds to `matches` the symbols of a parsed file that answer `query`, in
/// the order of the file, as long as there are fewer than
/// `query.max_results` of them.
pub fn collect_symbols_for_file(
    parsed: &ParsedFile,
    query: &SymbolQuery,
    matches: &mut Vec<SymbolMatch>,
)
    ensures
        matches_view(final(matches)@) == capped(
            matches_view(old(matches)@),
            file_hits(parsed.symbols(), parsed.language, parsed.content@, query@),
            query@.max_results,
        ),
{
    let max_results: usize = query.max_results;
    if matches.len() >= max_results {
        return ;
    }
    let ghost start = matches_view(matches@);
    let ghost symbols = parsed.symbols();
    let ghost parts = Seq::new(
        symbols.len(),
        |i: int| hits_of_symbol(symbols[i], parsed.language, parsed.content@, query@),
    );
    let mut i: usize = 0;
    proof {
        assert(parts.take(0) =~= Seq::<Seq<SymbolHit>>::empty());
        assert(start + Seq::<SymbolHit>::empty() =~= start);
    }
    while i < parsed.symbols.len()
        invariant
            i <= parsed.symbols@.len(),
            symbols == parsed.symbols(),
            symbols.len() == parsed.symbols@.len(),
            max_results == query@.max_results,
            start == matches_view(old(matches)@),
            start.len() < max_results,
            parts == Seq::new(
                symbols.len(),
                |i: int| hits_of_symbol(symbols[i], parsed.language, parsed.content@, query@),
            ),
            matches_view(matches@) == start + concat_all(parts.take(i as int)),
            matches@.len() <= max_results,
        decreases parsed.symbols.len() - i,
    {
        if matches.len() >= max_results {
            proof {
                assert(matches_view(matches@).len() == matches@.len());
                lemma_concat_prefix(parts, i as int);
                lemma_capped_at_limit(
                    start,
                    concat_all(parts.take(i as int)),
                    concat_all(parts),
                    max_results as nat,
                );
            }
            return ;
        }
        let symbol = &parsed.symbols[i];
        proof {
            lemma_concat_step(parts, i as int);
            assert(symbols[i as int] == symbol@);
        }
        if symbol_is_selected(symbol, query) {
            let body = if query.include_body {
                extract_body(parsed.content.as_slice(), &symbol.body)
            } else {
                None
            };
            let entry = SymbolMatch {
                name: symbol.name.clone(),
                kind: symbol.kind,
                line: symbol.line,
                column: symbol.column,
                signature: symbol.signature.clone(),
                language: parsed.language,
                body,
            };
            let ghost before = matches@;
            matches.push(entry);
            proof {
                assert(entry@ == hit_of(
                    symbol@,
                    parsed.language,
                    parsed.content@,
                    query@.include_body,
                ));
                assert(matches_view(matches@) =~= matches_view(before).push(entry@));
                assert(matches_view(matches@) =~= start + concat_all(parts.take(i + 1)));
            }
        } else {
            proof {
                assert(start + concat_all(parts.take(i + 1)) =~= start + concat_all(
                    parts.take(i as int),
                ));
            }
        }
        i += 1;
    }
    proof {
        assert(matches_view(matches@).len() == matches@.len());
        assert(parts.take(parts.len() as int) =~= parts);
        lemma_capped_below_limit(start, concat_all(parts), max_results as nat);
    }
}

} // verus!
