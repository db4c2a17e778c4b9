//! The catalog feeds of OPDS servers, as the reader shows them.
use vstd::prelude::*;

verus! {

/// Where an entry leads: another catalog feed, or a book to download.
#[derive(Debug, Clone, PartialEq, Eq)]
pub enum OpdsLinkType {
    Catalog(String),
    Acquisition(String),
}

/// One entry of a feed.
#[derive(Debug, Clone, PartialEq, Eq)]
pub struct OpdsEntry {
    pub title: String,
    pub author: String,
    pub summary: String,
    pub link: OpdsLinkType,
}

/// A catalog feed: its title, its own URL, the URLs of its next page and
/// of its search, and its entries.
#[derive(Debug, Clone, PartialEq, Eq)]
pub struct OpdsFeed {
    pub title: String,
    pub url: String,
    pub next_url: Option<String>,
    pub search_url: Option<String>,
    pub entries: Vec<OpdsEntry>,
}

pub enum OpdsLinkV {
    Catalog(Seq<char>),
    Acquisition(Seq<char>),
}

pub struct OpdsEntryV {
    pub title: Seq<char>,
    pub author: Seq<char>,
    pub summary: Seq<char>,
    pub link: OpdsLinkV,
}

pub struct OpdsFeedV {
    pub title: Seq<char>,
    pub url: Seq<char>,
    pub next_url: Option<Seq<char>>,
    pub search_url: Option<Seq<char>>,
    pub entries: Seq<OpdsEntryV>,
}

impl View for OpdsLinkType {
    type V = OpdsLinkV;

    open spec fn view(&self) -> OpdsLinkV {
        match self {
            OpdsLinkType::Catalog(u) => OpdsLinkV::Catalog(u@),
            OpdsLinkType::Acquisition(u) => OpdsLinkV::Acquisition(u@),
        }
    }
}

impl View for OpdsEntry {
    type V = OpdsEntryV;

    open spec fn view(&self) -> OpdsEntryV {
        OpdsEntryV { title: self.title@, author: self.author@, summary: self.summary@, link: self.link@ }
    }
}

pub open spec fn entry_views(s: Seq<OpdsEntry>) -> Seq<OpdsEntryV> {
    s.map_values(|e: OpdsEntry| e@)
}

pub open spec fn opt_str_view(o: Option<String>) -> Option<Seq<char>> {
    match o {
        Some(s) => Some(s@),
        None => None,
    }
}

impl View for OpdsFeed {
    type V = OpdsFeedV;

    open spec fn view(&self) -> OpdsFeedV {
        OpdsFeedV {
            title: self.title@,
            url: self.url@,
            next_url: opt_str_view(self.next_url),
            search_url: opt_str_view(self.search_url),
            entries: entry_views(self.entries@),
        }
    }
}

} // verus!
