//! Browsing a catalog feed with the keyboard: moving the selection,
//! opening the selected entry, going back.
use crate::opds::model::{OpdsFeed, OpdsLinkType};
use crate::tui::{KeyCode, KeyInput};
use vstd::prelude::*;

verus! {

/// What a key press in a feed asks of the application.
#[derive(Debug, Clone, PartialEq, Eq)]
pub enum FeedCommand {
    /// Keep showing the feed.
    Stay,
    /// Leave the feed.
    Back,
    /// Fetch and show the catalog feed at this URL.
    OpenCatalog(String),
    /// Fetch and open the book at this URL.
    Download(String),
}

pub open spec fn moves_down(k: KeyCode) -> bool {
    k == KeyCode::Char('j') || k == KeyCode::Down
}

pub open spec fn moves_up(k: KeyCode) -> bool {
    k == KeyCode::Char('k') || k == KeyCode::Up
}

pub open spec fn goes_back(k: KeyCode) -> bool {
    k == KeyCode::Char('q') || k == KeyCode::Esc
}

/// One key press while a feed is shown, with `selected` the selected entry:
/// `j`/Down and `k`/Up move the selection within the entries, `q`/Esc
/// leave the feed, Enter follows the selected entry's link (a catalog is
/// opened, a book downloaded). Other keys change nothing.
pub fn feed_key(feed: &OpdsFeed, selected: usize, key: KeyInput) -> (r: (usize, FeedCommand))
    ensures
        moves_down(key.code) ==> r.1 is Stay && r.0 == (if selected + 1 < feed.entries.len() {
            selected + 1
        } else {
            selected as int
        }),
        moves_up(key.code) ==> r.1 is Stay && r.0 == (if selected > 0 {
            selected - 1
        } else {
            0
        }),
        goes_back(key.code) ==> r.1 is Back && r.0 == selected,
        key.code == KeyCode::Enter ==> r.0 == selected,
        key.code == KeyCode::Enter && selected >= feed.entries.len() ==> r.1 is Stay,
        key.code == KeyCode::Enter && selected < feed.entries.len() ==> match feed.entries@[selected as int].link {
            OpdsLinkType::Catalog(u) => r.1 matches FeedCommand::OpenCatalog(v) && v@ == u@,
            OpdsLinkType::Acquisition(u) => r.1 matches FeedCommand::Download(v) && v@ == u@,
        },
        !moves_down(key.code) && !moves_up(key.code) && !goes_back(key.code) && key.code != KeyCode::Enter
            ==> r.0 == selected && r.1 is Stay,
{
    let n = feed.entries.len();
    match key.code {
        KeyCode::Char('j') | KeyCode::Down => {
            if selected < n && selected + 1 < n {
                (selected + 1, FeedCommand::Stay)
            } else {
                (selected, FeedCommand::Stay)
            }
        },
        KeyCode::Char('k') | KeyCode::Up => {
            if selected > 0 {
                (selected - 1, FeedCommand::Stay)
            } else {
                (0, FeedCommand::Stay)
            }
        },
        KeyCode::Char('q') | KeyCode::Esc => (selected, FeedCommand::Back),
        KeyCode::Enter => {
            if selected < n {
                match &feed.entries[selected].link {
                    OpdsLinkType::Catalog(u) => (selected, FeedCommand::OpenCatalog(u.clone())),
                    OpdsLinkType::Acquisition(u) => (selected, FeedCommand::Download(u.clone())),
                }
            } else {
                (selected, FeedCommand::Stay)
            }
        },
        _ => (selected, FeedCommand::Stay),
    }
}

} // verus!
