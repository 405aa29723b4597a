//! Overviews: what a file declares, in short.

use vstd::prelude::*;

use crate::language::Language;
use crate::parsed::ParsedFile;
use crate::symbols::{symbols_view, FileSymbol, Symbol, SymbolKind};

verus! {

/// How many files an overview of a directory covers when nothing else is
/// asked for.
pub const DEFAULT_MAX_FILES: usize = 20;

/// How many symbols of each file an overview of a directory names.
pub const TOP_SYMBOLS: usize = 5;

/// How deep below a directory its overview looks.
pub const OVERVIEW_DEPTH: usize = 4;

/// What an overview says of a symbol, as a mathematical value.
pub struct Outline {
    pub name: Seq<u8>,
    pub kind: SymbolKind,
    pub line: int,
    pub signature: Seq<u8>,
}

/// What an overview says of a symbol.
pub struct SymbolSummary {
    pub name: Vec<u8>,
    pub kind: SymbolKind,
    pub line: usize,
    pub signature: Vec<u8>,
}

impl View for SymbolSummary {
    type V = Outline;

    open spec fn view(&self) -> Outline {
        Outline {
            name: self.name@,
            kind: self.kind,
            line: self.line as int,
            signature: self.signature@,
        }
    }
}

/// The outlines that a vector holds.
pub open spec fn outlines_view(v: Seq<SymbolSummary>) -> Seq<Outline> {
    v.map_values(|s: SymbolSummary| s@)
}

/// What an overview says of `symbol`.
pub open spec fn outline_of(symbol: Symbol) -> Outline {
    Outline {
        name: symbol.name,
        kind: symbol.kind,
        line: symbol.line,
        signature: symbol.signature,
    }
}

/// The outlines of the first `limit` of `symbols`, or of all of them when
/// there are fewer or no limit is set.
pub open spec fn outlines_of(symbols: Seq<Symbol>, limit: Option<usize>) -> Seq<Outline> {
    let count = match limit {
        Some(n) => if n < symbols.len() {
            n as int
        } else {
            symbols.len() as int
        },
        None => symbols.len() as int,
    };
    symbols.take(count).map_values(|s: Symbol| outline_of(s))
}

/// The overview of one file.
pub struct FileOverview {
    pub language: Language,
    /// How many symbols the file declares.
    pub symbol_count: usize,
    /// The symbols named: all of them, or the first few.
    pub symbols: Vec<SymbolSummary>,
}

/// Makes the overview of a parsed file, naming its first `limit` symbols,
/// or all of them when no limit is set.
pub fn get_symbols_overview(parsed: &ParsedFile, limit: Option<usize>) -> (r: FileOverview)
    ensures
        r.language == parsed.language,
        r.symbol_count == parsed.symbols().len(),
        outlines_view(r.symbols@) == outlines_of(parsed.symbols(), limit),
{
    let n: usize = parsed.symbols.len();
    let count: usize = match limit {
        Some(limit) => if limit < n {
            limit
        } else {
            n
        },
        None => n,
    };
    let ghost all = parsed.symbols();
    let ghost wanted = all.take(count as int).map_values(|s: Symbol| outline_of(s));
    let mut symbols: Vec<SymbolSummary> = Vec::new();
    let mut i: usize = 0;
    while i < count
        invariant
            i <= count <= n,
            n == parsed.symbols@.len(),
            all == parsed.symbols(),
            wanted == all.take(count as int).map_values(|s: Symbol| outline_of(s)),
            outlines_view(symbols@) == wanted.take(i as int),
        decreases count - i,
    {
        let symbol = &parsed.symbols[i];
        let entry = SymbolSummary {
            name: symbol.name.clone(),
            kind: symbol.kind,
            line: symbol.line,
            signature: symbol.signature.clone(),
        };
        let ghost before = symbols@;
        symbols.push(entry);
        proof {
            assert(all[i as int] == symbol@);
            assert(entry@ == wanted[i as int]);
            assert(outlines_view(symbols@) =~= outlines_view(before).push(entry@));
            assert(outlines_view(symbols@) =~= wanted.take(i + 1));
        }
        i += 1;
    }
    proof {
        assert(wanted.take(count as int) =~= wanted);
    }
    FileOverview { language: parsed.language, symbol_count: n, symbols }
}

/// What an overview of a directory has gathered so far.
#[derive(Clone, Copy, Debug, PartialEq, Eq, Structural)]
pub struct OverviewTotals {
    pub files_summarised: usize,
    pub total_symbols: usize,
}

/// The sum of two counts, as far as the machine can count.
pub open spec fn bounded_sum(a: usize, b: usize) -> usize {
    if a + b > usize::MAX {
        usize::MAX
    } else {
        (a + b) as usize
    }
}

impl OverviewTotals {
    /// Nothing gathered yet.
    pub fn new() -> (r: OverviewTotals)
        ensures
            r.files_summarised == 0,
            r.total_symbols == 0,
    {
        OverviewTotals { files_summarised: 0, total_symbols: 0 }
    }

    /// Whether the overview takes more files: it does as long as it covers
    /// fewer than `max_files`.
    pub fn takes_more(&self, max_files: usize) -> (r: bool)
        ensures
            r == (self.files_summarised < max_files),
    {
        self.files_summarised < max_files
    }

    /// Counts a file with `symbol_count` symbols.
    pub fn record(&mut self, symbol_count: usize)
        requires
            old(self).files_summarised < usize::MAX,
        ensures
            final(self).files_summarised == old(self).files_summarised + 1,
            final(self).total_symbols == bounded_sum(old(self).total_symbols, symbol_count),
    {
        self.files_summarised = self.files_summarised + 1;
        self.total_symbols = if symbol_count > usize::MAX - self.total_symbols {
            usize::MAX
        } else {
            self.total_symbols + symbol_count
        };
    }
}

} // verus!
