use vstd::prelude::*;

verus! {

/// The lower-case form of a name, as `str::to_lowercase` gives it.
pub uninterp spec fn lowercase_of(name: Seq<char>) -> Seq<char>;

/// Lower-cases a name with std's `str::to_lowercase`, which works by Unicode's
/// rules and depends on nothing but the name. The result is named, not
/// described.
#[verifier::external_body]
fn lowercase(name: &str) -> (lowered: String)
    ensures
        lowered@ == lowercase_of(name@),
{
    name.to_lowercase()
}

/// The name of a currency or asset, kept in lower case. Two symbols made from
/// names that differ in case only are the same symbol.
#[derive(Clone, Debug, PartialEq, Eq, PartialOrd, Ord, Hash)]
pub struct Symbol {
    name: String,
}

impl View for Symbol {
    type V = Seq<char>;

    closed spec fn view(&self) -> Seq<char> {
        self.name@
    }
}

impl Symbol {
    /// The symbol of a name, whatever its case.
    pub fn new(name: &str) -> (symbol: Symbol)
        ensures
            symbol@ == lowercase_of(name@),
    {
        Symbol { name: lowercase(name) }
    }

    /// The symbol's name, in lower case.
    pub fn name(&self) -> (name: &String)
        ensures
            name@ == self@,
    {
        &self.name
    }

    /// Whether two symbols are the same.
    pub fn same(&self, other: &Symbol) -> (same: bool)
        ensures
            same == (self@ == other@),
    {
        self.name == other.name
    }

    /// A copy of the symbol.
    pub fn duplicate(&self) -> (copy: Symbol)
        ensures
            copy@ == self@,
    {
        Symbol { name: self.name.clone() }
    }
}

/// The kind of an instrument.
#[derive(Clone, Copy, Debug, PartialEq, Eq, PartialOrd, Ord, Hash, Structural)]
pub enum InstrumentKind {
    Spot,
    Future,
}

/// What can be traded: a base and a quote symbol, and the kind of market.
#[derive(Clone, Debug, PartialEq, Eq, PartialOrd, Ord, Hash)]
pub struct Instrument {
    pub base: Symbol,
    pub quote: Symbol,
    pub kind: InstrumentKind,
}

impl Instrument {
    /// The instrument of two names, whatever their case.
    pub fn new(base: &str, quote: &str, kind: InstrumentKind) -> (instrument: Instrument)
        ensures
            instrument.base@ == lowercase_of(base@),
            instrument.quote@ == lowercase_of(quote@),
            instrument.kind == kind,
    {
        Instrument { base: Symbol::new(base), quote: Symbol::new(quote), kind }
    }

    /// Whether two instruments are the same.
    pub fn same(&self, other: &Instrument) -> (same: bool)
        ensures
            same == (self.base@ == other.base@ && self.quote@ == other.quote@ && self.kind
                == other.kind),
    {
        self.base.same(&other.base) && self.quote.same(&other.quote) && self.kind == other.kind
    }
}

/// The kind of market data that a subscription asks for.
#[derive(Clone, Copy, Debug, PartialEq, Eq, PartialOrd, Ord, Hash, Structural)]
pub enum SubKind {
    PublicTrades,
    OrderBooksL1,
    OrderBooksL2,
    OrderBooksL3,
}

impl SubKind {
    /// Whether the events of this kind are rebuilt from snapshots and deltas,
    /// which takes a book per instrument.
    pub open spec fn stateful(self) -> bool {
        self == SubKind::OrderBooksL2 || self == SubKind::OrderBooksL3
    }

    /// Whether the events of this kind take a book per instrument.
    pub fn is_stateful(self) -> (stateful: bool)
        ensures
            stateful == self.stateful(),
    {
        match self {
            SubKind::OrderBooksL2 => true,
            SubKind::OrderBooksL3 => true,
            _ => false,
        }
    }
}

/// A request for one kind of market data of one instrument.
#[derive(Clone, Debug, PartialEq, Eq, PartialOrd, Ord, Hash)]
pub struct Subscription {
    pub instrument: Instrument,
    pub kind: SubKind,
}

} // verus!
