//! The terminal interface: the list of subscribed feeds, the articles of the
//! selected feed, and how they are drawn into a terminal buffer.
pub mod tb;
pub mod ansi;

pub use tb::TerminalBuffer;

use vstd::prelude::*;
use crate::interface::tb::{CellView, put_str, pad};
use crate::text::{decimal, push_decimal, text_lines, split_lines};
use crate::formats::feeds::rss::{RssItem, item_rendering};
use vstd::utf8::encode_utf8;
use vstd::string::StringSliceAdditionalSpecFns;

verus! {

/// The default foreground colour.
pub const DEFAULT_FG: &'static str = "\x1B[39m";

/// The default background colour.
pub const DEFAULT_BG: &'static str = "\x1B[49m";

/// Resets every attribute.
pub const RESET_ALL: &'static str = "\x1B[0m";

/// The foreground colour of a selected line.
pub const SELECTED_FG: &'static str = "\x1B[38;5;208m";

/// The background colour of the bottom bar.
pub const SELECTED_BG: &'static str = "\x1B[48;5;208m";

/// A subscribed feed as the interface shows it: its name, the titles of its
/// articles, the selected article, and whether the article list has focus.
pub struct Feed<'a> {
    display_name: &'a str,
    articles: Vec<&'a str>,
    pub idx: usize,
    active: bool,
}

/// The subscribed feeds, the selected feed, and whether the article list of
/// the selected feed has focus.
pub struct Subscriptions<'a> {
    pub feeds: Vec<Feed<'a>>,
    pub idx: usize,
    pub in_articles: bool,
}

/// A feed, taken as values.
pub struct FeedView {
    pub name: Seq<char>,
    pub articles: Seq<Seq<char>>,
    pub idx: int,
    pub active: bool,
}

impl<'a> View for Feed<'a> {
    type V = FeedView;

    closed spec fn view(&self) -> FeedView {
        FeedView {
            name: self.display_name@,
            articles: self.articles@.map_values(|a: &str| a@),
            idx: self.idx as int,
            active: self.active,
        }
    }
}

/// The feeds of a subscription list, taken as values.
pub open spec fn feeds_view(feeds: Seq<Feed>) -> Seq<FeedView> {
    feeds.map_values(|f: Feed| f@)
}

/// The article after the selected one, wrapping around; nothing moves when
/// there is no article.
pub open spec fn next_index(idx: int, len: int) -> int {
    if len == 0 {
        idx
    } else {
        (idx + 1) % len
    }
}

/// The article before the selected one, wrapping around from the first to
/// the last.
pub open spec fn previous_index(idx: int, len: int) -> int {
    if idx == 0 {
        len - 1
    } else {
        idx - 1
    }
}

impl<'a> Feed<'a> {
    /// A feed named `display_name` with articles `articles`, the first one
    /// selected, without focus.
    pub fn new(display_name: &'a str, articles: Vec<&'a str>) -> (f: Self)
        ensures
            f@ == (FeedView {
                name: display_name@,
                articles: articles@.map_values(|a: &str| a@),
                idx: 0,
                active: false,
            }),
    {
        Feed { display_name, articles, idx: 0, active: false }
    }

    /// The selected article is never negative.
    pub proof fn lemma_idx(&self)
        ensures
            0 <= self@.idx,
    {
    }

    /// The selected article.
    pub fn idx(&self) -> (r: usize)
        ensures
            r == self@.idx,
    {
        self.idx
    }

    fn set_active(&mut self)
        ensures
            final(self)@ == (FeedView { active: true, ..old(self)@ }),
    {
        self.active = true;
    }

    fn set_inactive(&mut self)
        ensures
            final(self)@ == (FeedView { active: false, ..old(self)@ }),
    {
        self.active = false;
    }

    /// The name of the feed.
    pub fn display_name(&self) -> (r: &'a str)
        ensures
            r@ == self@.name,
    {
        self.display_name
    }

    /// The titles of the feed's articles.
    pub fn articles(&self) -> (r: &Vec<&'a str>)
        ensures
            r@.map_values(|a: &str| a@) == self@.articles,
    {
        &self.articles
    }

    /// Selects the next article, wrapping around to the first.
    pub fn next_article(&mut self) -> (r: &mut Self)
        requires
            old(self)@.articles.len() == 0 || old(self)@.idx < usize::MAX,
        ensures
            (*r)@ == (FeedView {
                idx: next_index(old(self)@.idx, old(self)@.articles.len() as int),
                ..old(self)@
            }),
            *final(self) == *final(r),
    {
        if !self.articles.is_empty() {
            self.idx = (self.idx + 1) % self.articles.len();
        }
        self
    }

    /// Selects the previous article, wrapping around to the last.
    pub fn previous_article(&mut self) -> (r: &mut Self)
        requires
            old(self)@.idx != 0 || old(self)@.articles.len() > 0,
        ensures
            (*r)@ == (FeedView {
                idx: previous_index(old(self)@.idx, old(self)@.articles.len() as int),
                ..old(self)@
            }),
            *final(self) == *final(r),
    {
        self.idx = if self.idx == 0 {
            self.articles.len() - 1
        } else {
            self.idx - 1
        };
        self
    }
}

/// The subscription list with feed `k` replaced by `f`.
pub open spec fn with_feed(s: SubscriptionsView, k: int, f: FeedView) -> SubscriptionsView {
    SubscriptionsView { feeds: s.feeds.update(k, f), ..s }
}

/// A subscription list, taken as values.
pub struct SubscriptionsView {
    pub feeds: Seq<FeedView>,
    pub idx: int,
    pub in_articles: bool,
}

impl<'a> View for Subscriptions<'a> {
    type V = SubscriptionsView;

    open spec fn view(&self) -> SubscriptionsView {
        SubscriptionsView {
            feeds: feeds_view(self.feeds@),
            idx: self.idx as int,
            in_articles: self.in_articles,
        }
    }
}

/// What moving down does: outside the article list the next feed is
/// selected (wrapping around); inside it, the next article of the selected
/// feed.
pub open spec fn moved_down(s: SubscriptionsView) -> SubscriptionsView {
    if s.feeds.len() > 0 && !s.in_articles {
        SubscriptionsView { idx: (s.idx + 1) % (s.feeds.len() as int), ..s }
    } else if s.in_articles {
        let f = s.feeds[s.idx];
        with_feed(s, s.idx, FeedView { idx: next_index(f.idx, f.articles.len() as int), ..f })
    } else {
        s
    }
}

/// What moving up does: inside the article list the previous article of the
/// selected feed is selected; outside it, the previous feed (wrapping around).
pub open spec fn moved_up(s: SubscriptionsView) -> SubscriptionsView {
    if s.in_articles {
        let f = s.feeds[s.idx];
        with_feed(s, s.idx, FeedView { idx: previous_index(f.idx, f.articles.len() as int), ..f })
    } else {
        SubscriptionsView { idx: previous_index(s.idx, s.feeds.len() as int), ..s }
    }
}

/// What a key press asks of the interface.
#[derive(Debug, PartialEq, Eq, Structural, Clone, Copy)]
pub enum Command {
    /// `q`: leave the interface.
    Quit,
    /// `l`: move into the article list of the selected feed.
    Enter,
    /// `h`: move out of the article list.
    Leave,
    /// `j`: move down.
    Down,
    /// `k`: move up.
    Up,
    /// Any other key.
    Nothing,
}

/// The command of a key.
pub open spec fn command_of(key: u8) -> Command {
    if key == 0x71 {
        Command::Quit
    } else if key == 0x6c {
        Command::Enter
    } else if key == 0x68 {
        Command::Leave
    } else if key == 0x6a {
        Command::Down
    } else if key == 0x6b {
        Command::Up
    } else {
        Command::Nothing
    }
}

/// The command of a key.
pub fn command(key: u8) -> (c: Command)
    ensures
        c == command_of(key),
{
    if key == 0x71 {
        Command::Quit
    } else if key == 0x6c {
        Command::Enter
    } else if key == 0x68 {
        Command::Leave
    } else if key == 0x6a {
        Command::Down
    } else if key == 0x6b {
        Command::Up
    } else {
        Command::Nothing
    }
}

/// The subscription list after a command (quitting and unknown keys leave it
/// as it is).
pub open spec fn commanded(s: SubscriptionsView, c: Command) -> SubscriptionsView {
    match c {
        Command::Enter => SubscriptionsView {
            in_articles: true,
            ..with_feed(s, s.idx, FeedView { active: true, ..s.feeds[s.idx] })
        },
        Command::Leave => SubscriptionsView {
            in_articles: false,
            ..with_feed(s, s.idx, FeedView { active: false, ..s.feeds[s.idx] })
        },
        Command::Down => moved_down(s),
        Command::Up => moved_up(s),
        _ => s,
    }
}

/// The name under which a feed read from RSS is listed: its channel's
/// title, or `Untitled Feed` where it has none.
pub open spec fn listed_name(f: crate::formats::feeds::rss::feed::FeedView) -> Seq<char> {
    match f.channel {
        Some(c) => if c.contains_key(crate::formats::feeds::rss::feed::RssTag::Title) {
            c[crate::formats::feeds::rss::feed::RssTag::Title]
        } else {
            "Untitled Feed"@
        },
        None => "Untitled Feed"@,
    }
}

/// The feed that the interface lists for a feed read from RSS: named as
/// `listed_name` says, with the titles of its items that have one, the
/// first selected, without focus.
pub fn interface_feed<'a>(feed: &crate::formats::feeds::rss::feed::Feed<'a>) -> (f: Feed<'a>)
    ensures
        f@ == (FeedView {
            name: listed_name(feed@),
            articles: crate::formats::feeds::rss::feed::present(
                feed@.items,
                crate::formats::feeds::rss::feed::RssTag::Title,
            ),
            idx: 0,
            active: false,
        }),
{
    let untitled = "Untitled Feed";
    let display_name = match feed.get_channel_title() {
        Some(t) => t,
        None => untitled,
    };
    let articles = feed.get_item_titles();
    Feed::new(display_name, articles)
}

impl<'a> Subscriptions<'a> {
    /// Carries out command `c`; whether it asks to leave the interface.
    pub fn apply(&mut self, c: Command) -> (quit: bool)
        requires
            c == Command::Enter || c == Command::Leave ==> old(self).idx < old(self).feeds.len(),
            c == Command::Down ==> {
                &&& old(self).feeds.len() > 0 && !old(self).in_articles ==> old(self).idx < usize::MAX
                &&& old(self).in_articles ==> old(self).idx < old(self).feeds.len() && (old(
                    self,
                )@.feeds[old(self).idx as int].articles.len() == 0 || old(self)@.feeds[old(
                    self,
                ).idx as int].idx < usize::MAX)
            },
            c == Command::Up ==> {
                &&& old(self).in_articles ==> old(self).idx < old(self).feeds.len() && (old(
                    self,
                )@.feeds[old(self).idx as int].idx != 0 || old(self)@.feeds[old(
                    self,
                ).idx as int].articles.len() > 0)
                &&& !old(self).in_articles ==> old(self).idx != 0 || old(self).feeds.len() > 0
            },
        ensures
            quit == (c == Command::Quit),
            final(self)@ == commanded(old(self)@, c),
    {
        match c {
            Command::Quit => true,
            Command::Enter => {
                self.move_in_articles();
                false
            },
            Command::Leave => {
                self.move_out_articles();
                false
            },
            Command::Down => {
                self.next_feed();
                false
            },
            Command::Up => {
                self.previous_feed();
                false
            },
            Command::Nothing => false,
        }
    }
}

impl<'a> Subscriptions<'a> {
    /// A subscription list of `feeds`, the first one selected, outside the
    /// article list.
    pub fn new(feeds: Vec<Feed<'a>>) -> (s: Self)
        ensures
            s@ == (SubscriptionsView { feeds: feeds_view(feeds@), idx: 0, in_articles: false }),
    {
        Subscriptions { feeds, idx: 0, in_articles: false }
    }

    /// The selected feed.
    pub fn get_idx_mut(&mut self) -> (r: &mut Feed<'a>)
        requires
            old(self).idx < old(self).feeds.len(),
        ensures
            *r == old(self).feeds@[old(self).idx as int],
            final(self).feeds@ == old(self).feeds@.update(old(self).idx as int, *final(r)),
            final(self).idx == old(self).idx,
            final(self).in_articles == old(self).in_articles,
    {
        &mut self.feeds[self.idx]
    }

    /// Gives the selected feed's article list the focus.
    pub fn move_in_articles(&mut self)
        requires
            old(self).idx < old(self).feeds.len(),
        ensures
            final(self)@ == (SubscriptionsView {
                in_articles: true,
                ..with_feed(
                    old(self)@,
                    old(self).idx as int,
                    FeedView { active: true, ..old(self)@.feeds[old(self).idx as int] },
                )
            }),
    {
        self.get_idx_mut().set_active();
        self.in_articles = true;
        proof {
            assert(feeds_view(self.feeds@) =~= feeds_view(old(self).feeds@).update(
                old(self).idx as int,
                FeedView { active: true, ..old(self)@.feeds[old(self).idx as int] },
            ));
        }
    }

    /// Takes the focus away from the selected feed's article list.
    pub fn move_out_articles(&mut self)
        requires
            old(self).idx < old(self).feeds.len(),
        ensures
            final(self)@ == (SubscriptionsView {
                in_articles: false,
                ..with_feed(
                    old(self)@,
                    old(self).idx as int,
                    FeedView { active: false, ..old(self)@.feeds[old(self).idx as int] },
                )
            }),
    {
        self.get_idx_mut().set_inactive();
        self.in_articles = false;
        proof {
            assert(feeds_view(self.feeds@) =~= feeds_view(old(self).feeds@).update(
                old(self).idx as int,
                FeedView { active: false, ..old(self)@.feeds[old(self).idx as int] },
            ));
        }
    }

    /// Moves down (see `moved_down`).
    pub fn next_feed(&mut self) -> (r: &mut Self)
        requires
            old(self).feeds.len() > 0 && !old(self).in_articles ==> old(self).idx < usize::MAX,
            old(self).in_articles ==> old(self).idx < old(self).feeds.len() && (old(self)@.feeds[old(
                self,
            ).idx as int].articles.len() == 0 || old(self)@.feeds[old(self).idx as int].idx
                < usize::MAX),
        ensures
            (*r)@ == moved_down(old(self)@),
            *final(self) == *final(r),
    {
        if !self.feeds.is_empty() && !self.in_articles {
            self.idx = (self.idx + 1) % self.feeds.len();
        } else if self.in_articles {
            let ghost f = self@.feeds[self.idx as int];
            self.get_idx_mut().next_article();
            proof {
                assert(feeds_view(self.feeds@) =~= feeds_view(old(self).feeds@).update(
                    old(self).idx as int,
                    FeedView { idx: next_index(f.idx, f.articles.len() as int), ..f },
                ));
            }
        }
        self
    }

    /// Moves up (see `moved_up`).
    pub fn previous_feed(&mut self) -> (r: &mut Self)
        requires
            old(self).in_articles ==> old(self).idx < old(self).feeds.len() && (old(self)@.feeds[old(
                self,
            ).idx as int].idx != 0 || old(self)@.feeds[old(self).idx as int].articles.len() > 0),
            !old(self).in_articles ==> old(self).idx != 0 || old(self).feeds.len() > 0,
        ensures
            (*r)@ == moved_up(old(self)@),
            *final(self) == *final(r),
    {
        if self.in_articles {
            let ghost f = self@.feeds[self.idx as int];
            self.get_idx_mut().previous_article();
            proof {
                assert(feeds_view(self.feeds@) =~= feeds_view(old(self).feeds@).update(
                    old(self).idx as int,
                    FeedView { idx: previous_index(f.idx, f.articles.len() as int), ..f },
                ));
            }
        } else {
            self.idx = if self.idx == 0 {
                self.feeds.len() - 1
            } else {
                self.idx - 1
            };
        }
        self
    }
}

/// Outside the article list, moving down and then up selects the feed that
/// was selected; inside it, the article that was selected.
pub proof fn law_down_then_up(s: SubscriptionsView)
    requires
        0 <= s.idx < s.feeds.len(),
        0 <= s.feeds[s.idx].idx < s.feeds[s.idx].articles.len(),
    ensures
        moved_up(moved_down(s)) == s,
{
    let n = s.feeds.len() as int;
    lemma_next_index(s.idx, n);
    let f = s.feeds[s.idx];
    lemma_next_index(f.idx, f.articles.len() as int);
    if s.in_articles {
        let f2 = FeedView { idx: next_index(f.idx, f.articles.len() as int), ..f };
        assert(FeedView { idx: previous_index(f2.idx, f2.articles.len() as int), ..f2 } == f);
        assert(s.feeds.update(s.idx, f2).update(s.idx, f) =~= s.feeds);
    }
}

proof fn lemma_next_index(idx: int, len: int)
    requires
        0 <= idx < len,
    ensures
        next_index(idx, len) == if idx + 1 < len {
            idx + 1
        } else {
            0
        },
{
    if idx + 1 < len {
        vstd::arithmetic::div_mod::lemma_small_mod((idx + 1) as nat, len as nat);
    } else {
        vstd::arithmetic::div_mod::lemma_mod_self_0(len);
    }
}

/// Moving to the next article and back again returns to the article that
/// was selected.
pub proof fn law_next_then_previous_article(idx: int, len: int)
    requires
        0 <= idx < len,
    ensures
        previous_index(next_index(idx, len), len) == idx,
{
    lemma_next_index(idx, len);
}

/// Moving to the previous article and on again returns to the article that
/// was selected.
pub proof fn law_previous_then_next_article(idx: int, len: int)
    requires
        0 <= idx < len,
    ensures
        next_index(previous_index(idx, len), len) == idx,
{
    lemma_next_index(previous_index(idx, len), len);
}

/// On a feed whose selection lies inside its list of articles, selecting
/// the next article and then the previous one gives the selection back, and
/// so does selecting the previous one and then the next.
pub proof fn law_feed_moves_undo_each_other(f: Feed)
    requires
        f@.idx < f@.articles.len(),
    ensures
        previous_index(next_index(f@.idx, f@.articles.len() as int), f@.articles.len() as int) == f@.idx,
        next_index(previous_index(f@.idx, f@.articles.len() as int), f@.articles.len() as int) == f@.idx,
{
    f.lemma_idx();
    law_next_then_previous_article(f@.idx, f@.articles.len() as int);
    law_previous_then_next_article(f@.idx, f@.articles.len() as int);
}

/// Each key gives its own command and no other key gives it: `q` (0x71)
/// quits, `l` (0x6c) enters the article list, `h` (0x68) leaves it, `j`
/// (0x6a) moves down, `k` (0x6b) moves up, and any other key does nothing.
pub proof fn law_keys(key: u8)
    ensures
        (command_of(key) == Command::Quit) == (key == 0x71),
        (command_of(key) == Command::Enter) == (key == 0x6c),
        (command_of(key) == Command::Leave) == (key == 0x68),
        (command_of(key) == Command::Down) == (key == 0x6a),
        (command_of(key) == Command::Up) == (key == 0x6b),
        (command_of(key) == Command::Nothing) == (key != 0x71 && key != 0x6c && key != 0x68 && key
            != 0x6a && key != 0x6b),
{
}

/// Outside the article lists, `j` selects the next feed and `k` the
/// previous one, wrapping around at the ends; inside the article list of
/// the selected feed, they select its next and previous article. Nothing
/// else changes.
pub proof fn law_j_moves_down_and_k_moves_up(s: SubscriptionsView)
    requires
        0 <= s.idx < s.feeds.len(),
    ensures
        !s.in_articles ==> commanded(s, command_of(0x6a)) == (SubscriptionsView {
            idx: if s.idx + 1 == s.feeds.len() { 0 } else { s.idx + 1 },
            ..s
        }),
        !s.in_articles ==> commanded(s, command_of(0x6b)) == (SubscriptionsView {
            idx: if s.idx == 0 { s.feeds.len() - 1 } else { s.idx - 1 },
            ..s
        }),
        s.in_articles && 0 <= s.feeds[s.idx].idx < s.feeds[s.idx].articles.len() ==> commanded(
            s,
            command_of(0x6a),
        ) == (SubscriptionsView {
            feeds: s.feeds.update(
                s.idx,
                FeedView {
                    idx: if s.feeds[s.idx].idx + 1 == s.feeds[s.idx].articles.len() {
                        0
                    } else {
                        s.feeds[s.idx].idx + 1
                    },
                    ..s.feeds[s.idx]
                },
            ),
            ..s
        }),
        s.in_articles && 0 <= s.feeds[s.idx].idx < s.feeds[s.idx].articles.len() ==> commanded(
            s,
            command_of(0x6b),
        ) == (SubscriptionsView {
            feeds: s.feeds.update(
                s.idx,
                FeedView {
                    idx: if s.feeds[s.idx].idx == 0 {
                        s.feeds[s.idx].articles.len() - 1
                    } else {
                        s.feeds[s.idx].idx - 1
                    },
                    ..s.feeds[s.idx]
                },
            ),
            ..s
        }),
{
    let f = s.feeds[s.idx];
    if s.in_articles && 0 <= f.idx < f.articles.len() {
        lemma_next_index(f.idx, f.articles.len() as int);
    }
    if !s.in_articles {
        lemma_next_index(s.idx, s.feeds.len() as int);
    }
}

/// Moving keeps the selection inside the list.
pub proof fn law_moves_stay_in_list(idx: int, len: int)
    requires
        0 <= idx < len,
    ensures
        0 <= next_index(idx, len) < len,
        0 <= previous_index(idx, len) < len,
{
    lemma_next_index(idx, len);
}

/// The colour of a line that is not selected.
pub const PLAIN_FG: &'static str = "\x1B[37m";

/// The line of feed `i` in the subscription list: a marker (`> ` for the
/// selected feed while its articles do not have the focus), the feed's
/// number and its name.
pub open spec fn subscription_line(s: SubscriptionsView, i: int) -> Seq<char> {
    (if i == s.idx && !s.in_articles {
        "> "@
    } else {
        "  "@
    }) + decimal(i as nat) + " - "@ + s.feeds[i].name
}

/// The colour of line `i` of a list whose selected line is `selected`.
pub open spec fn line_colour(selected: int, i: int) -> Seq<char> {
    if i == selected {
        SELECTED_FG@
    } else {
        PLAIN_FG@
    }
}

/// The back buffer once the first `k` lines of the subscription list are
/// drawn from column `x`, the first on row `y` and each next one
/// `spacing` rows lower.
pub open spec fn subscriptions_drawn(
    cells: Seq<CellView>,
    w: int,
    h: int,
    x: int,
    y: int,
    spacing: int,
    s: SubscriptionsView,
    k: int,
) -> Seq<CellView>
    decreases k,
{
    if k <= 0 {
        cells
    } else {
        put_str(
            subscriptions_drawn(cells, w, h, x, y, spacing, s, k - 1),
            w,
            h,
            x,
            y + (k - 1) * spacing,
            subscription_line(s, k - 1),
            line_colour(s.idx, k - 1),
            DEFAULT_BG@,
        )
    }
}

/// Draws the subscription list: one line per feed (see `subscription_line`),
/// from column `x`, the first on row `y` and each next one `y_spacing` rows
/// lower.
pub fn draw_subscriptions(
    buffer: &mut TerminalBuffer,
    x: u16,
    y: u16,
    y_spacing: u16,
    subscriptions: &Subscriptions,
)
    requires
        old(buffer).wf(),
        y + subscriptions.feeds.len() * y_spacing <= u16::MAX,
        forall|i: int|
            0 <= i < subscriptions.feeds.len() ==> x == 0 || x + (#[trigger] subscription_line(
                subscriptions@,
                i,
            )).len() <= u16::MAX + 1,
    ensures
        final(buffer).wf(),
        final(buffer).cols() == old(buffer).cols(),
        final(buffer).rows() == old(buffer).rows(),
        final(buffer).drawn_width() == old(buffer).drawn_width(),
        final(buffer).drawn_height() == old(buffer).drawn_height(),
        final(buffer).front_cells() == old(buffer).front_cells(),
        final(buffer).back_cells() == subscriptions_drawn(
            old(buffer).back_cells(),
            old(buffer).cols() as int,
            old(buffer).rows() as int,
            x as int,
            y as int,
            y_spacing as int,
            subscriptions@,
            subscriptions.feeds.len() as int,
        ),
{
    let ghost s = subscriptions@;
    let ghost n = subscriptions.feeds.len() as int;
    let mut current_y = y;
    let mut i: usize = 0;
    while i < subscriptions.feeds.len()
        invariant
            buffer.wf(),
            buffer.cols() == old(buffer).cols(),
            buffer.rows() == old(buffer).rows(),
            buffer.drawn_width() == old(buffer).drawn_width(),
            buffer.drawn_height() == old(buffer).drawn_height(),
            buffer.front_cells() == old(buffer).front_cells(),
            s == subscriptions@,
            n == subscriptions.feeds.len(),
            y + n * y_spacing <= u16::MAX,
            forall|k: int|
                0 <= k < n ==> x == 0 || x + (#[trigger] subscription_line(s, k)).len() <= u16::MAX
                    + 1,
            i <= n,
            current_y == y + i * y_spacing,
            buffer.back_cells() == subscriptions_drawn(
                old(buffer).back_cells(),
                old(buffer).cols() as int,
                old(buffer).rows() as int,
                x as int,
                y as int,
                y_spacing as int,
                s,
                i as int,
            ),
        decreases n - i,
    {
        let item = &subscriptions.feeds[i];
        let mut prefix = if i == subscriptions.idx && !subscriptions.in_articles {
            String::from_str("> ")
        } else {
            String::from_str("  ")
        };
        push_decimal(&mut prefix, i);
        prefix.append(" - ");
        prefix.append(item.display_name);
        proof {
            assert(s.feeds[i as int].name == item.display_name@);
            assert(prefix@ =~= subscription_line(s, i as int));
        }
        let fg = if i == subscriptions.idx {
            SELECTED_FG
        } else {
            PLAIN_FG
        };
        buffer.print_str(x, current_y, prefix.as_str(), fg, DEFAULT_BG);
        assert(y + (i + 1) * y_spacing <= y + n * y_spacing) by (nonlinear_arith)
            requires
                i + 1 <= n,
                0 <= y_spacing,
        ;
        assert((i + 1) * y_spacing == i * y_spacing + y_spacing) by (nonlinear_arith);
        current_y += y_spacing;
        i += 1;
    }
}

/// The line of article `i` of feed `f`: a marker (`> ` for the selected
/// article while the list has the focus), the article's number and title.
pub open spec fn article_line(f: FeedView, i: int) -> Seq<char> {
    (if i == f.idx && f.active {
        "> "@
    } else {
        "  "@
    }) + decimal(i as nat) + " - "@ + f.articles[i]
}

/// The column a line drawn from column `x` is taken to reach: `x` plus the
/// line's length in bytes, counted as a `u16` counts (modulo 65536).
pub open spec fn line_width(x: int, line: Seq<char>) -> int {
    x + encode_utf8(line).len() % 65536
}

/// How many rows below row `y` the article list may use on a screen of `h`
/// rows (three are kept for the bottom bar, one as padding).
pub open spec fn allowed_rows(h: int, y: int) -> int {
    if h - y - 4 > 0 {
        h - y - 4
    } else {
        0
    }
}

/// The first article shown: far enough down for the selected one to show.
pub open spec fn first_shown(f: FeedView, allowed: int) -> int {
    if f.idx > allowed {
        f.idx - allowed
    } else {
        0
    }
}

/// How many articles are shown.
pub open spec fn shown_count(f: FeedView, allowed: int) -> int {
    if f.articles.len() < allowed + 1 {
        f.articles.len() as int
    } else {
        allowed + 1
    }
}

/// The larger of two numbers.
pub open spec fn larger(a: int, b: int) -> int {
    if a > b {
        a
    } else {
        b
    }
}

/// The rightmost width among the first `k` shown articles (from article
/// `first`), or zero.
pub open spec fn widest_line(x: int, f: FeedView, first: int, k: int) -> int
    decreases k,
{
    if k <= 0 {
        0
    } else {
        larger(line_width(x, article_line(f, first + k - 1)), widest_line(x, f, first, k - 1))
    }
}

/// The back buffer once the first `k` shown articles (from article `first`)
/// are drawn from column `x`, the first on row `y` and each next one
/// `spacing` rows lower, each padded to its own width or to `prev_width`,
/// whichever is larger.
pub open spec fn articles_drawn(
    cells: Seq<CellView>,
    w: int,
    h: int,
    x: int,
    y: int,
    spacing: int,
    prev_width: int,
    f: FeedView,
    first: int,
    k: int,
) -> Seq<CellView>
    decreases k,
{
    if k <= 0 {
        cells
    } else {
        let c = articles_drawn(cells, w, h, x, y, spacing, prev_width, f, first, k - 1);
        let i = first + k - 1;
        let line = article_line(f, i);
        let width = line_width(x, line);
        let row = y + (k - 1) * spacing;
        let colour = line_colour(f.idx, i);
        pad(
            put_str(c, w, h, x, row, line, colour, DEFAULT_BG@),
            w,
            h,
            x,
            row,
            line.len() as int,
            larger(width, prev_width),
            colour,
            DEFAULT_BG@,
        )
    }
}

/// The back buffer once rows `from` to `to` (both included) are blanked
/// from column `x` over `width` columns.
pub open spec fn rows_blanked(cells: Seq<CellView>, w: int, h: int, x: int, from: int, to: int, width: int) -> Seq<
    CellView,
>
    decreases to - from + 1,
{
    if from > to {
        cells
    } else {
        rows_blanked(
            pad(
                put_str(cells, w, h, x, from, " "@, DEFAULT_FG@, DEFAULT_BG@),
                w,
                h,
                x,
                from,
                1,
                width,
                DEFAULT_FG@,
                DEFAULT_BG@,
            ),
            w,
            h,
            x,
            from + 1,
            to,
            width,
        )
    }
}

/// The shown article lines can be drawn: each one's width fits a `u16`,
/// and each one, padded, stays within the `u16` columns.
pub open spec fn articles_fit(x: int, prev_width: int, f: FeedView, first: int, count: int) -> bool {
    forall|i: int| first <= i < first + count ==> line_fits(x, prev_width, #[trigger] article_line(f, i))
}

/// A line drawn from column `x` and padded to its width or to `prev_width`
/// stays within the `u16` columns, and its width fits a `u16`.
pub open spec fn line_fits(x: int, prev_width: int, line: Seq<char>) -> bool {
    let width = line_width(x, line);
    &&& width <= u16::MAX
    &&& line.len() <= u16::MAX
    &&& line.len() == 0 || x + line.len() <= u16::MAX + 1
    &&& line.len() >= larger(width, prev_width) || x + larger(width, prev_width) <= u16::MAX + 1
}

/// Where the article list of `f` goes on a screen of `h` rows when drawn
/// from row `y`: its first article, how many are shown, and whether they can
/// be shown at all (they lie inside the list).
pub open spec fn article_layout(h: int, y: int, f: FeedView) -> (int, int, bool) {
    let allowed = allowed_rows(h, y);
    let first = first_shown(f, allowed);
    let count = shown_count(f, allowed);
    (first, count, first + count <= f.articles.len())
}

/// The row below the last article line drawn, and the widest line.
pub open spec fn article_extent(h: int, x: int, y: int, spacing: int, f: FeedView) -> (int, int) {
    let (first, count, shown) = article_layout(h, y, f);
    if shown {
        (y + count * spacing, widest_line(x, f, first, count))
    } else {
        (y, 0)
    }
}

/// The last row an article line was drawn on (zero if none fits above).
pub open spec fn last_drawn_row(h: int, x: int, y: int, spacing: int, f: FeedView) -> int {
    let (current, widest) = article_extent(h, x, y, spacing, f);
    if current > spacing {
        current - spacing
    } else {
        0
    }
}

/// The back buffer after the article list of `f` is drawn (see
/// `draw_feed_articles`).
pub open spec fn article_list_drawn(
    cells: Seq<CellView>,
    w: int,
    h: int,
    x: int,
    y: int,
    spacing: int,
    prev_width: int,
    prev_height: int,
    f: FeedView,
) -> Seq<CellView> {
    let (first, count, shown) = article_layout(h, y, f);
    let (current, widest) = article_extent(h, x, y, spacing, f);
    let drawn = if shown {
        articles_drawn(cells, w, h, x, y, spacing, prev_width, f, first, count)
    } else {
        cells
    };
    if last_drawn_row(h, x, y, spacing, f) < prev_height {
        rows_blanked(drawn, w, h, x, current, prev_height, widest)
    } else {
        drawn
    }
}

/// The article list of `f` can be drawn without overflowing a `u16` or a
/// `usize`.
pub open spec fn article_list_fits(
    h: int,
    x: int,
    y: int,
    spacing: int,
    prev_width: int,
    prev_height: int,
    f: FeedView,
) -> bool {
    let (first, count, shown) = article_layout(h, y, f);
    let (current, widest) = article_extent(h, x, y, spacing, f);
    &&& first + count <= usize::MAX
    &&& shown ==> articles_fit(x, prev_width, f, first, count) && y + count * spacing <= u16::MAX
    &&& last_drawn_row(h, x, y, spacing, f) < prev_height ==> widest <= 1 || x + widest
        <= u16::MAX + 1
}

/// Draws the shown article lines; returns the row below the last and the
/// widest line.
fn draw_article_lines(
    buffer: &mut TerminalBuffer,
    x: u16,
    y: u16,
    y_spacing: u16,
    feed: &Feed,
    first: usize,
    count: usize,
) -> (r: (u16, u16))
    requires
        old(buffer).wf(),
        first + count <= feed@.articles.len(),
        articles_fit(x as int, old(buffer).drawn_width() as int, feed@, first as int, count as int),
        y + count * y_spacing <= u16::MAX,
    ensures
        final(buffer).wf(),
        final(buffer).cols() == old(buffer).cols(),
        final(buffer).rows() == old(buffer).rows(),
        final(buffer).drawn_width() == old(buffer).drawn_width(),
        final(buffer).drawn_height() == old(buffer).drawn_height(),
        final(buffer).front_cells() == old(buffer).front_cells(),
        final(buffer).back_cells() == articles_drawn(
            old(buffer).back_cells(),
            old(buffer).cols() as int,
            old(buffer).rows() as int,
            x as int,
            y as int,
            y_spacing as int,
            old(buffer).drawn_width() as int,
            feed@,
            first as int,
            count as int,
        ),
        r.0 == y + count * y_spacing,
        r.1 == widest_line(x as int, feed@, first as int, count as int),
{
    let ghost f = feed@;
    let total = feed.articles.len();
    let mut current_y = y;
    let mut max_width: u16 = 0;
    let mut offset: usize = 0;
    while offset < count
        invariant
            buffer.wf(),
            buffer.cols() == old(buffer).cols(),
            buffer.rows() == old(buffer).rows(),
            buffer.drawn_width() == old(buffer).drawn_width(),
            buffer.drawn_height() == old(buffer).drawn_height(),
            buffer.front_cells() == old(buffer).front_cells(),
            f == feed@,
            f.articles.len() == feed.articles@.len(),
            total == feed.articles@.len(),
            first + count <= f.articles.len(),
            articles_fit(x as int, old(buffer).drawn_width() as int, f, first as int, count as int),
            y + count * y_spacing <= u16::MAX,
            offset <= count,
            current_y == y + offset * y_spacing,
            max_width == widest_line(x as int, f, first as int, offset as int),
            buffer.back_cells() == articles_drawn(
                old(buffer).back_cells(),
                old(buffer).cols() as int,
                old(buffer).rows() as int,
                x as int,
                y as int,
                y_spacing as int,
                old(buffer).drawn_width() as int,
                f,
                first as int,
                offset as int,
            ),
        decreases count - offset,
    {
        let i = first + offset;
        let item = feed.articles[i];
        let is_selected = i == feed.idx;
        let mut line = if is_selected && feed.active {
            String::from_str("> ")
        } else {
            String::from_str("  ")
        };
        push_decimal(&mut line, i);
        line.append(" - ");
        line.append(item);
        proof {
            assert(f.articles[i as int] == item@);
            assert(line@ =~= article_line(f, i as int));
        }
        let n = line.as_str().as_bytes().len();
        assert(line_fits(x as int, old(buffer).drawn_width() as int, article_line(f, i as int)));
        let width = x + ((n % 65536) as u16);
        if width > max_width {
            max_width = width;
        }
        let fg = if is_selected {
            SELECTED_FG
        } else {
            PLAIN_FG
        };
        let previous_width = buffer.previous_max_width();
        let max_len = if width > previous_width {
            width
        } else {
            previous_width
        };
        buffer.print_str_padded(x, current_y, line.as_str(), fg, DEFAULT_BG, max_len);
        assert(y + (offset + 1) * y_spacing <= y + count * y_spacing) by (nonlinear_arith)
            requires
                offset + 1 <= count,
                0 <= y_spacing,
        ;
        assert((offset + 1) * y_spacing == offset * y_spacing + y_spacing) by (nonlinear_arith);
        current_y += y_spacing;
        offset += 1;
    }
    (current_y, max_width)
}

/// Draws the article list of `feed` from column `x`, the first line on row
/// `y` and each next one `y_spacing` rows lower: as many articles as fit
/// above the bottom bar, starting far enough down for the selected one to
/// show, each padded to the widest list drawn before. Rows that the list
/// drawn before used and this one does not are blanked. The buffer then
/// remembers the widest line and the last row drawn.
pub fn draw_feed_articles(buffer: &mut TerminalBuffer, x: u16, y: u16, y_spacing: u16, feed: &mut Feed)
    requires
        old(buffer).wf(),
        article_list_fits(
            old(buffer).rows() as int,
            x as int,
            y as int,
            y_spacing as int,
            old(buffer).drawn_width() as int,
            old(buffer).drawn_height() as int,
            old(feed)@,
        ),
    ensures
        final(buffer).wf(),
        final(buffer).cols() == old(buffer).cols(),
        final(buffer).rows() == old(buffer).rows(),
        final(buffer).front_cells() == old(buffer).front_cells(),
        final(buffer).back_cells() == article_list_drawn(
            old(buffer).back_cells(),
            old(buffer).cols() as int,
            old(buffer).rows() as int,
            x as int,
            y as int,
            y_spacing as int,
            old(buffer).drawn_width() as int,
            old(buffer).drawn_height() as int,
            old(feed)@,
        ),
        final(buffer).drawn_width() == larger(
            article_extent(old(buffer).rows() as int, x as int, y as int, y_spacing as int, old(feed)@).1,
            old(buffer).drawn_width() as int,
        ),
        final(buffer).drawn_height() == last_drawn_row(
            old(buffer).rows() as int,
            x as int,
            y as int,
            y_spacing as int,
            old(feed)@,
        ),
        *final(feed) == *old(feed),
{
    let ghost f = feed@;
    let ghost h = buffer.rows() as int;
    let allowed_height = buffer.height().saturating_sub(y).saturating_sub(3).saturating_sub(1) as usize;
    assert(allowed_height == allowed_rows(h, y as int));
    let starting_idx = feed.idx.saturating_sub(allowed_height);
    assert(starting_idx == first_shown(f, allowed_height as int));
    let eligible_count = if feed.articles.len() < allowed_height + 1 {
        feed.articles.len()
    } else {
        allowed_height + 1
    };
    assert(eligible_count == shown_count(f, allowed_height as int));
    let ending_idx = starting_idx + eligible_count;
    let mut current_y = y;
    let mut max_width: u16 = 0;
    if ending_idx <= feed.articles.len() {
        let (row, widest) = draw_article_lines(
            buffer,
            x,
            y,
            y_spacing,
            feed,
            starting_idx,
            eligible_count,
        );
        current_y = row;
        max_width = widest;
    }
    let ghost drawn = buffer.back_cells();
    if max_width > buffer.previous_max_width() {
        buffer.set_previous_max_width(max_width);
    }
    let last_drawn_y = current_y.saturating_sub(y_spacing);
    let previous_max_height = buffer.previous_max_height();
    if last_drawn_y < previous_max_height {
        let blank: &str = " ";
        proof {
            reveal_strlit(" ");
        }
        let mut padded_y: u32 = current_y as u32;
        while padded_y <= previous_max_height as u32
            invariant
                buffer.wf(),
                buffer.cols() == old(buffer).cols(),
                buffer.rows() == old(buffer).rows(),
                buffer.drawn_width() == larger(max_width as int, old(buffer).drawn_width() as int),
                buffer.drawn_height() == old(buffer).drawn_height(),
                buffer.front_cells() == old(buffer).front_cells(),
                blank@ == " "@,
                blank@.len() == 1,
                current_y <= padded_y,
                max_width <= 1 || x + max_width <= u16::MAX + 1,
                rows_blanked(
                    drawn,
                    old(buffer).cols() as int,
                    old(buffer).rows() as int,
                    x as int,
                    current_y as int,
                    previous_max_height as int,
                    max_width as int,
                ) == rows_blanked(
                    buffer.back_cells(),
                    old(buffer).cols() as int,
                    old(buffer).rows() as int,
                    x as int,
                    padded_y as int,
                    previous_max_height as int,
                    max_width as int,
                ),
            decreases previous_max_height + 1 - padded_y,
        {
            buffer.print_str_padded(x, padded_y as u16, blank, DEFAULT_FG, DEFAULT_BG, max_width);
            padded_y += 1;
        }
    }
    buffer.set_previous_max_height(last_drawn_y);
}

/// The error type of the standard input and output.
#[verifier::external_type_specification]
#[verifier::external_body]
pub struct ExIoError(std::io::Error);

/// The back buffer once the first `k` of `lines` are drawn from column `x`,
/// the first on row `y` and each next one `spacing` rows lower (the line's
/// number counted modulo 65536, as a `u16` counts).
pub open spec fn lines_drawn(
    cells: Seq<CellView>,
    w: int,
    h: int,
    x: int,
    y: int,
    spacing: int,
    lines: Seq<Seq<char>>,
    k: int,
) -> Seq<CellView>
    decreases k,
{
    if k <= 0 {
        cells
    } else {
        put_str(
            lines_drawn(cells, w, h, x, y, spacing, lines, k - 1),
            w,
            h,
            x,
            y + spacing * ((k - 1) % 65536),
            lines[k - 1],
            DEFAULT_FG@,
            DEFAULT_BG@,
        )
    }
}

/// The lines can be drawn without overflowing a `u16`.
pub open spec fn lines_fit(x: int, y: int, spacing: int, lines: Seq<Seq<char>>) -> bool {
    forall|k: int|
        0 <= k < lines.len() ==> {
            &&& spacing * (k % 65536) <= u16::MAX
            &&& y + spacing * (k % 65536) <= u16::MAX
            &&& x == 0 || x + (#[trigger] lines[k]).len() <= u16::MAX + 1
        }
}

/// Draws an article: its text (see `item_rendering`) line by line from
/// column `x`, the first line on row `y` and each next one `y_spacing` rows
/// lower.
pub fn draw_article_view(buffer: &mut TerminalBuffer, x: u16, y: u16, y_spacing: u16, item: &RssItem)
    requires
        old(buffer).wf(),
        lines_fit(x as int, y as int, y_spacing as int, text_lines(item_rendering(item@))),
    ensures
        final(buffer).wf(),
        final(buffer).cols() == old(buffer).cols(),
        final(buffer).rows() == old(buffer).rows(),
        final(buffer).drawn_width() == old(buffer).drawn_width(),
        final(buffer).drawn_height() == old(buffer).drawn_height(),
        final(buffer).front_cells() == old(buffer).front_cells(),
        final(buffer).back_cells() == lines_drawn(
            old(buffer).back_cells(),
            old(buffer).cols() as int,
            old(buffer).rows() as int,
            x as int,
            y as int,
            y_spacing as int,
            text_lines(item_rendering(item@)),
            text_lines(item_rendering(item@)).len() as int,
        ),
{
    let formatted = item.to_string();
    let lines = split_lines(formatted.as_str());
    let ghost ls = text_lines(item_rendering(item@));
    let mut idx: usize = 0;
    while idx < lines.len()
        invariant
            buffer.wf(),
            buffer.cols() == old(buffer).cols(),
            buffer.rows() == old(buffer).rows(),
            buffer.drawn_width() == old(buffer).drawn_width(),
            buffer.drawn_height() == old(buffer).drawn_height(),
            buffer.front_cells() == old(buffer).front_cells(),
            lines@.map_values(|l: String| l@) == ls,
            lines_fit(x as int, y as int, y_spacing as int, ls),
            idx <= lines@.len(),
            buffer.back_cells() == lines_drawn(
                old(buffer).back_cells(),
                old(buffer).cols() as int,
                old(buffer).rows() as int,
                x as int,
                y as int,
                y_spacing as int,
                ls,
                idx as int,
            ),
        decreases lines@.len() - idx,
    {
        let line = &lines[idx];
        assert(ls[idx as int] == line@);
        let k = (idx % 65536) as u16;
        buffer.print_str(x, y + y_spacing * k, line.as_str(), DEFAULT_FG, DEFAULT_BG);
        idx += 1;
    }
}

/// Draws `text` along row `y` from the first column, in the bar colours,
/// padded to the width of the screen.
fn draw_bar(text: &str, buffer: &mut TerminalBuffer, y: u16) -> (r: Result<(), std::io::Error>)
    requires
        old(buffer).wf(),
        text@.len() <= u16::MAX,
    ensures
        r is Ok,
        final(buffer).wf(),
        final(buffer).cols() == old(buffer).cols(),
        final(buffer).rows() == old(buffer).rows(),
        final(buffer).drawn_width() == old(buffer).drawn_width(),
        final(buffer).drawn_height() == old(buffer).drawn_height(),
        final(buffer).front_cells() == old(buffer).front_cells(),
        final(buffer).back_cells() == pad(
            put_str(
                old(buffer).back_cells(),
                old(buffer).cols() as int,
                old(buffer).rows() as int,
                1,
                y as int,
                text@,
                DEFAULT_FG@,
                SELECTED_BG@,
            ),
            old(buffer).cols() as int,
            old(buffer).rows() as int,
            1,
            y as int,
            text@.len() as int,
            old(buffer).cols() as int,
            DEFAULT_FG@,
            SELECTED_BG@,
        ),
{
    let width = buffer.width();
    buffer.print_str_padded(1, y, text, DEFAULT_FG, SELECTED_BG, width);
    Ok(())
}

/// The text of the bottom bar: its entries joined by single spaces.
pub open spec fn bottom_bar_text() -> Seq<char> {
    "Theo luv Andrea all ze beans cheese much"@ + " "@ + "Q: Quit"@ + " "@ + "q: Back"@ + " "@
        + "h: Left"@ + " "@ + "l: Right"@ + " "@ + "j: Down"@ + " "@ + "k: Up"@
}

/// Draws the bottom bar (see `bottom_bar_text`) on the second row from the
/// bottom.
pub fn draw_bottom_bar(buffer: &mut TerminalBuffer) -> (r: Result<(), std::io::Error>)
    requires
        old(buffer).wf(),
        old(buffer).rows() >= 2,
    ensures
        r is Ok,
        final(buffer).wf(),
        final(buffer).cols() == old(buffer).cols(),
        final(buffer).rows() == old(buffer).rows(),
        final(buffer).drawn_width() == old(buffer).drawn_width(),
        final(buffer).drawn_height() == old(buffer).drawn_height(),
        final(buffer).front_cells() == old(buffer).front_cells(),
        final(buffer).back_cells() == pad(
            put_str(
                old(buffer).back_cells(),
                old(buffer).cols() as int,
                old(buffer).rows() as int,
                1,
                old(buffer).rows() - 2,
                bottom_bar_text(),
                DEFAULT_FG@,
                SELECTED_BG@,
            ),
            old(buffer).cols() as int,
            old(buffer).rows() as int,
            1,
            old(buffer).rows() - 2,
            bottom_bar_text().len() as int,
            old(buffer).cols() as int,
            DEFAULT_FG@,
            SELECTED_BG@,
        ),
{
    let instructions: [&str; 7] = [
        "Theo luv Andrea all ze beans cheese much",
        "Q: Quit",
        "q: Back",
        "h: Left",
        "l: Right",
        "j: Down",
        "k: Up",
    ];
    let mut bar_text = String::from_str(instructions[0]);
    let mut i: usize = 1;
    while i < 7
        invariant
            1 <= i <= 7,
            instructions@ == seq![
                "Theo luv Andrea all ze beans cheese much",
                "Q: Quit",
                "q: Back",
                "h: Left",
                "l: Right",
                "j: Down",
                "k: Up",
            ],
            bar_text@ == joined(instructions@.map_values(|t: &str| t@), i as int),
        decreases 7 - i,
    {
        bar_text.append(" ");
        bar_text.append(instructions[i]);
        i += 1;
    }
    proof {
        let parts = instructions@.map_values(|t: &str| t@);
        reveal_with_fuel(joined, 8);
        assert(parts[0] == "Theo luv Andrea all ze beans cheese much"@);
        assert(parts[1] == "Q: Quit"@);
        assert(parts[2] == "q: Back"@);
        assert(parts[3] == "h: Left"@);
        assert(parts[4] == "l: Right"@);
        assert(parts[5] == "j: Down"@);
        assert(parts[6] == "k: Up"@);
        assert(bar_text@ == bottom_bar_text());
        reveal_strlit("Theo luv Andrea all ze beans cheese much");
        reveal_strlit("Q: Quit");
        reveal_strlit("q: Back");
        reveal_strlit("h: Left");
        reveal_strlit("l: Right");
        reveal_strlit("j: Down");
        reveal_strlit("k: Up");
        reveal_strlit(" ");
    }
    let height = buffer.height();
    draw_bar(bar_text.as_str(), buffer, height - 2)
}

/// The first `k` of `parts` joined by single spaces.
pub open spec fn joined(parts: Seq<Seq<char>>, k: int) -> Seq<char>
    decreases k,
{
    if k <= 1 {
        parts[0]
    } else {
        joined(parts, k - 1) + " "@ + parts[k - 1]
    }
}

} // verus!
