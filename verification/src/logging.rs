//! Minimal logging configuration glue: a level filter held as text and a
//! builder that installs it.  The stub subscriber discards everything, so
//! installing is a no-op; the types exist so callers can configure logging
//! the usual way.

use vstd::prelude::*;

verus! {

/// A log filter directive, held as text.
#[derive(Debug, Clone)]
pub struct EnvFilter(String);

impl View for EnvFilter {
    type V = Seq<char>;

    closed spec fn view(&self) -> Seq<char> {
        self.0@
    }
}

impl EnvFilter {
    /// A filter from an explicit directive.
    pub fn new(filter: &str) -> (r: Self)
        ensures
            r@ == filter@,
    {
        EnvFilter(filter.to_owned())
    }
}

/// A subscriber builder carrying the filter to install.
pub struct FmtBuilder {
    filter: EnvFilter,
}

impl View for FmtBuilder {
    type V = Seq<char>;

    closed spec fn view(&self) -> Seq<char> {
        self.filter@
    }
}

impl FmtBuilder {
    /// Replaces the builder's filter.
    pub fn with_env_filter(self, filter: EnvFilter) -> (r: Self)
        ensures
            r@ == filter@,
    {
        FmtBuilder { filter }
    }

    /// Installs the subscriber; the stub discards the filter.
    pub fn init(self) {
        let _ = self.filter;
    }
}

/// A builder with the default `info` filter.
pub fn fmt() -> (b: FmtBuilder)
    ensures
        b@ == "info"@,
{
    FmtBuilder { filter: EnvFilter::new("info") }
}

} // verus!
