//! Renders the readable text of an HTML page: the text after the `title`
//! start tag, outside `script` and `style`, one line per text token with its
//! white space collapsed, indented by four spaces per open `ul` list.
use vstd::prelude::*;
use crate::bs::{ascii, bytes_eq};
use crate::formats::html::tokens::{
    HtmlToken, HtmlTokenizer, HtmlState, TokenView, step, law_step_moves_forward,
    law_exhausted_stays_exhausted,
};
use crate::text::{utf8_lossy, lossy_string, words, join_words, collapse_white_space};

verus! {

/// What the renderer remembers between tokens: whether it is inside a
/// `script` or `style` element, whether the `title` start tag has been seen,
/// and how many `ul` lists are open.
pub struct RenderState {
    pub ignore: bool,
    pub after_title: bool,
    pub indent: nat,
}

/// The renderer at the start of a page.
pub open spec fn initial_render_state() -> RenderState {
    RenderState { ignore: false, after_title: false, indent: 0 }
}

/// `n` levels of indentation, four spaces each.
pub open spec fn indentation(n: nat) -> Seq<char>
    decreases n,
{
    if n == 0 {
        Seq::empty()
    } else {
        indentation((n - 1) as nat) + "    "@
    }
}

/// The line a text token gives at indentation `indent`: its bytes read as
/// UTF-8 (invalid sequences replaced), its words joined by single spaces,
/// the indentation before and a line feed after; nothing when it holds no
/// word.
pub open spec fn text_line(indent: nat, b: Seq<u8>) -> Seq<char> {
    let w = words(utf8_lossy(b));
    if w.len() == 0 {
        Seq::empty()
    } else {
        indentation(indent) + join_words(w) + "\n"@
    }
}

/// The open lists after token `t`, from `indent` open before it; `None` for
/// an `</ul>` with no list open, where the count cannot go below zero and the
/// program stops.
pub open spec fn indent_after(indent: nat, t: TokenView) -> Option<nat> {
    match t {
        TokenView::StartTag(n) => if n == ascii("ul"@) {
            Some(indent + 1)
        } else {
            Some(indent)
        },
        TokenView::EndTag(n) => if n == ascii("ul"@) {
            if indent == 0 {
                None
            } else {
                Some((indent - 1) as nat)
            }
        } else {
            Some(indent)
        },
        _ => Some(indent),
    }
}

/// The renderer's state after token `t`, and the text the token adds; `None`
/// where the program stops (see `indent_after`).
pub open spec fn render_token(r: RenderState, t: TokenView) -> Option<(RenderState, Seq<char>)> {
    match indent_after(r.indent, t) {
        None => None,
        Some(indent) => {
            let ignore = match t {
                TokenView::StartTag(n) => if n == ascii("script"@) || n == ascii("style"@) {
                    true
                } else {
                    r.ignore
                },
                TokenView::EndTag(n) => if n == ascii("script"@) || n == ascii("style"@) {
                    false
                } else {
                    r.ignore
                },
                _ => r.ignore,
            };
            let after_title = match t {
                TokenView::StartTag(n) => r.after_title || n == ascii("title"@),
                _ => r.after_title,
            };
            let line = match t {
                TokenView::Text(b) => if !r.ignore && r.after_title {
                    text_line(r.indent, b)
                } else {
                    Seq::empty()
                },
                _ => Seq::empty(),
            };
            Some((RenderState { ignore, after_title, indent }, line))
        },
    }
}

/// The text rendered from position `p` of `s` on, in tokenizer state `st`
/// with pending raw-text element `raw` and renderer state `r`, taking at most
/// `fuel` tokens: the tokens' lines and a final line feed. Tokens the
/// tokenizer reports as errors are passed over. `None` when the program
/// stops or the fuel runs out first.
pub open spec fn render_run(
    s: Seq<u8>,
    p: int,
    st: HtmlState,
    raw: Option<Seq<u8>>,
    r: RenderState,
    fuel: nat,
) -> Option<Seq<char>>
    decreases fuel,
{
    if fuel == 0 {
        None
    } else {
        let (p2, st2, raw2, item) = step(s, p, st, raw);
        match item {
            None => Some("\n"@),
            Some(Err(_)) => render_run(s, p2, st2, raw2, r, (fuel - 1) as nat),
            Some(Ok(t)) => match render_token(r, t) {
                None => None,
                Some((r2, line)) => match render_run(s, p2, st2, raw2, r2, (fuel - 1) as nat) {
                    Some(rest) => Some(line + rest),
                    None => None,
                },
            },
        }
    }
}

/// Whether the tokens from position `p` of `s` on run out within `fuel`
/// tokens, with `indent` lists open and never an `</ul>` with none open.
pub open spec fn completes(
    s: Seq<u8>,
    p: int,
    st: HtmlState,
    raw: Option<Seq<u8>>,
    indent: nat,
    fuel: nat,
) -> bool
    decreases fuel,
{
    if fuel == 0 {
        false
    } else {
        let (p2, st2, raw2, item) = step(s, p, st, raw);
        match item {
            None => true,
            Some(Err(_)) => completes(s, p2, st2, raw2, indent, (fuel - 1) as nat),
            Some(Ok(t)) => match indent_after(indent, t) {
                None => false,
                Some(i2) => completes(s, p2, st2, raw2, i2, (fuel - 1) as nat),
            },
        }
    }
}

/// Tokens that run out within the fuel render to some text within it.
pub proof fn lemma_completes_renders(
    s: Seq<u8>,
    p: int,
    st: HtmlState,
    raw: Option<Seq<u8>>,
    r: RenderState,
    fuel: nat,
)
    requires
        completes(s, p, st, raw, r.indent, fuel),
    ensures
        render_run(s, p, st, raw, r, fuel) is Some,
    decreases fuel,
{
    let (p2, st2, raw2, item) = step(s, p, st, raw);
    match item {
        None => {},
        Some(Err(_)) => lemma_completes_renders(s, p2, st2, raw2, r, (fuel - 1) as nat),
        Some(Ok(t)) => {
            let (r2, line) = render_token(r, t).unwrap();
            lemma_completes_renders(s, p2, st2, raw2, r2, (fuel - 1) as nat);
        },
    }
}

/// The renderer's state as it is kept while running.
struct Renderer {
    ignore_tokens: bool,
    after_title: bool,
    indent: usize,
}

impl Renderer {
    spec fn view(&self) -> RenderState {
        RenderState {
            ignore: self.ignore_tokens,
            after_title: self.after_title,
            indent: self.indent as nat,
        }
    }

    /// Whether the renderer can take `token`: anything but an `</ul>` with no
    /// list open.
    fn accepts(&self, token: &HtmlToken) -> (b: bool)
        ensures
            b == (render_token(self.view(), token@) is Some),
    {
        let ul: [u8; 2] = [0x75, 0x6c];
        proof {
            reveal_strlit("ul");
            assert(ul@ =~= ascii("ul"@));
        }
        match token {
            HtmlToken::EndTag(name) => !(self.indent == 0 && bytes_eq(name, ul.as_slice())),
            _ => true,
        }
    }

    /// Takes one token, adding its text to `out`.
    fn take(&mut self, token: HtmlToken, out: &mut String)
        requires
            render_token(old(self).view(), token@) is Some,
            token@ is StartTag ==> old(self).indent < usize::MAX,
        ensures
            render_token(old(self).view(), token@) matches Some((r, line)) && final(self).view()
                == r && final(out)@ == old(out)@ + line,
    {
        let ghost before = out@;
        let title: [u8; 5] = [0x74, 0x69, 0x74, 0x6c, 0x65];
        let script: [u8; 6] = [0x73, 0x63, 0x72, 0x69, 0x70, 0x74];
        let style: [u8; 5] = [0x73, 0x74, 0x79, 0x6c, 0x65];
        let ul: [u8; 2] = [0x75, 0x6c];
        proof {
            reveal_strlit("title");
            reveal_strlit("script");
            reveal_strlit("style");
            reveal_strlit("ul");
            assert(title@ =~= ascii("title"@));
            assert(script@ =~= ascii("script"@));
            assert(style@ =~= ascii("style"@));
            assert(ul@ =~= ascii("ul"@));
        }
        match token {
            HtmlToken::StartTag(name) => {
                if bytes_eq(name, title.as_slice()) {
                    self.after_title = true;
                } else if bytes_eq(name, script.as_slice()) || bytes_eq(name, style.as_slice()) {
                    self.ignore_tokens = true;
                } else if bytes_eq(name, ul.as_slice()) {
                    self.indent = self.indent + 1;
                }
                proof {
                    assert(ascii("title"@) != ascii("ul"@));
                    assert(ascii("title"@) != ascii("script"@));
                    assert(ascii("title"@) != ascii("style"@));
                    assert(ascii("ul"@) != ascii("script"@));
                    assert(ascii("ul"@) != ascii("style"@));
                }
            },
            HtmlToken::EndTag(name) => {
                if bytes_eq(name, script.as_slice()) || bytes_eq(name, style.as_slice()) {
                    self.ignore_tokens = false;
                } else if bytes_eq(name, ul.as_slice()) {
                    self.indent = self.indent - 1;
                }
                proof {
                    assert(ascii("ul"@) != ascii("script"@));
                    assert(ascii("ul"@) != ascii("style"@));
                }
            },
            HtmlToken::Text(bytes) => {
                if !self.ignore_tokens && self.after_title {
                    let text = lossy_string(bytes);
                    match collapse_white_space(text.as_str()) {
                        Some(cleaned) => {
                            push_indentation(out, self.indent);
                            out.append(cleaned.as_str());
                            out.append("\n");
                        },
                        None => {},
                    }
                }
            },
            _ => {},
        }
        proof {
            if out@.len() == before.len() {
                assert(out@ =~= before + Seq::<char>::empty());
            }
        }
    }
}

/// Appends `n` levels of indentation to `out`.
fn push_indentation(out: &mut String, n: usize)
    ensures
        final(out)@ == old(out)@ + indentation(n as nat),
{
    let mut k: usize = 0;
    proof {
        assert(out@ =~= old(out)@ + indentation(0));
    }
    while k < n
        invariant
            k <= n,
            out@ == old(out)@ + indentation(k as nat),
        decreases n - k,
    {
        out.append("    ");
        k = k + 1;
        proof {
            assert(out@ =~= old(out)@ + indentation(k as nat));
        }
    }
}

/// Writes the readable text of the tokens a tokenizer reads.
pub struct DisplayHtmlTokenStream<'a> {
    tokenizer: HtmlTokenizer<'a>,
}

impl<'a> From<HtmlTokenizer<'a>> for DisplayHtmlTokenStream<'a> {
    fn from(value: HtmlTokenizer<'a>) -> (d: Self) {
        DisplayHtmlTokenStream { tokenizer: value }
    }
}

impl<'a> vstd::std_specs::convert::FromSpecImpl<HtmlTokenizer<'a>> for DisplayHtmlTokenStream<'a> {
    open spec fn obeys_from_spec() -> bool {
        true
    }

    open spec fn from_spec(v: HtmlTokenizer<'a>) -> Self {
        DisplayHtmlTokenStream::over(v)
    }
}

impl<'a> DisplayHtmlTokenStream<'a> {
    /// The stream over tokenizer `t`.
    pub closed spec fn over(t: HtmlTokenizer<'a>) -> Self {
        DisplayHtmlTokenStream { tokenizer: t }
    }

    /// The tokenizer the stream reads from.
    pub closed spec fn tokens(&self) -> HtmlTokenizer<'a> {
        self.tokenizer
    }

    /// The stream over `t` reads from `t`.
    pub proof fn lemma_over(t: HtmlTokenizer<'a>)
        ensures
            Self::over(t).tokens() == t,
    {
    }

    /// Whether the tokens left run out, never closing a list that is not
    /// open (see `completes`).
    pub open spec fn renders_to_end(&self) -> bool {
        let t = self.tokens();
        exists|n: nat| completes(t.input(), t.at(), t.current_state(), t.raw_name(), 0, n)
    }

    /// Tokens enough for the rest of the input (see `renders_to_end`).
    pub open spec fn fuel(&self) -> nat {
        let t = self.tokens();
        choose|n: nat| completes(t.input(), t.at(), t.current_state(), t.raw_name(), 0, n)
    }

    /// The text that rendering the rest of the input gives (see `render_run`).
    pub open spec fn rendering(&self) -> Option<Seq<char>> {
        let t = self.tokens();
        render_run(t.input(), t.at(), t.current_state(), t.raw_name(), initial_render_state(), self.fuel())
    }

    /// Reads the rest of the tokens and gives the text they render to: each
    /// text token after the `title` start tag and outside `script` and
    /// `style` becomes one line, its words joined by single spaces and
    /// indented by four spaces per open `ul` list (a token with no word gives
    /// no line); a line feed ends the text. Tokens the tokenizer reports as
    /// errors are passed over.
    pub fn render_tokens(&mut self) -> (text: String)
        requires
            old(self).tokens().wf(),
            old(self).renders_to_end(),
        ensures
            final(self).tokens().wf(),
            final(self).tokens().input() == old(self).tokens().input(),
            final(self).tokens().at() == final(self).tokens().input().len(),
            old(self).rendering() == Some(text@),
    {
        let ghost s = self.tokenizer.input();
        let ghost mut fuel: nat = old(self).fuel();
        let ghost total = old(self).rendering();
        let mut renderer = Renderer { ignore_tokens: false, after_title: false, indent: 0 };
        let mut out = String::new();
        proof {
            lemma_completes_renders(
                s,
                self.tokenizer.at(),
                self.tokenizer.current_state(),
                self.tokenizer.raw_name(),
                initial_render_state(),
                fuel,
            );
            assert(out@ + total.unwrap() =~= total.unwrap());
            self.tokenizer.lemma_wf();
        }
        loop
            invariant
                self.tokenizer.wf(),
                self.tokenizer.input() == s,
                s == old(self).tokens().input(),
                total == old(self).rendering(),
                total is Some,
                renderer.indent <= self.tokenizer.at(),
                completes(
                    s,
                    self.tokenizer.at(),
                    self.tokenizer.current_state(),
                    self.tokenizer.raw_name(),
                    renderer.view().indent,
                    fuel,
                ),
                render_run(
                    s,
                    self.tokenizer.at(),
                    self.tokenizer.current_state(),
                    self.tokenizer.raw_name(),
                    renderer.view(),
                    fuel,
                ) matches Some(rest) && total.unwrap() == out@ + rest,
            decreases fuel,
        {
            let ghost p = self.tokenizer.at();
            let ghost st = self.tokenizer.current_state();
            let ghost raw = self.tokenizer.raw_name();
            let ghost rv = renderer.view();
            let ghost rest = render_run(s, p, st, raw, rv, fuel).unwrap();
            let ghost before = out@;
            proof {
                self.tokenizer.lemma_wf();
                law_exhausted_stays_exhausted(s, p, st, raw);
                law_step_moves_forward(s, p, st, raw);
            }
            match self.tokenizer.next() {
                None => {
                    out.append("\n");
                    return out;
                },
                Some(Err(_)) => {
                    proof {
                        fuel = (fuel - 1) as nat;
                    }
                },
                Some(Ok(token)) => {
                    proof {
                        self.tokenizer.lemma_wf();
                    }
                    renderer.take(token, &mut out);
                    proof {
                        let line = render_token(rv, token@).unwrap().1;
                        let rest2 = render_run(
                            s,
                            self.tokenizer.at(),
                            self.tokenizer.current_state(),
                            self.tokenizer.raw_name(),
                            renderer.view(),
                            (fuel - 1) as nat,
                        ).unwrap();
                        assert(rest == line + rest2);
                        assert(before + (line + rest2) =~= out@ + rest2);
                        fuel = (fuel - 1) as nat;
                    }
                },
            }
        }
    }
}

impl<'a> DisplayHtmlTokenStream<'a> {
    /// Reads at most `limit` of the tokens left and gives the text they
    /// render to, as `render_tokens` does; `None` where they do not run out
    /// within `limit` tokens, or close a list that is not open (see
    /// `render_run`).
    pub fn render_tokens_within(&mut self, limit: usize) -> (text: Option<String>)
        requires
            old(self).tokens().wf(),
        ensures
            final(self).tokens().wf(),
            final(self).tokens().input() == old(self).tokens().input(),
            match render_run(
                old(self).tokens().input(),
                old(self).tokens().at(),
                old(self).tokens().current_state(),
                old(self).tokens().raw_name(),
                initial_render_state(),
                limit as nat,
            ) {
                Some(x) => text matches Some(t) && t@ == x,
                None => text is None,
            },
    {
        let ghost s = self.tokenizer.input();
        let ghost total = render_run(
            s,
            self.tokenizer.at(),
            self.tokenizer.current_state(),
            self.tokenizer.raw_name(),
            initial_render_state(),
            limit as nat,
        );
        let mut renderer = Renderer { ignore_tokens: false, after_title: false, indent: 0 };
        let mut out = String::new();
        let mut left = limit;
        proof {
            self.tokenizer.lemma_wf();
            match total {
                Some(t) => assert(out@ + t =~= t),
                None => {},
            }
        }
        loop
            invariant
                self.tokenizer.wf(),
                self.tokenizer.input() == s,
                s == old(self).tokens().input(),
                renderer.indent <= self.tokenizer.at(),
                total == render_run(
                    s,
                    old(self).tokens().at(),
                    old(self).tokens().current_state(),
                    old(self).tokens().raw_name(),
                    initial_render_state(),
                    limit as nat,
                ),
                total == (match render_run(
                    s,
                    self.tokenizer.at(),
                    self.tokenizer.current_state(),
                    self.tokenizer.raw_name(),
                    renderer.view(),
                    left as nat,
                ) {
                    Some(rest) => Some(out@ + rest),
                    None => None,
                }),
            decreases left,
        {
            if left == 0 {
                return None;
            }
            let ghost p = self.tokenizer.at();
            let ghost st = self.tokenizer.current_state();
            let ghost raw = self.tokenizer.raw_name();
            let ghost rv = renderer.view();
            let ghost before = out@;
            proof {
                self.tokenizer.lemma_wf();
                law_exhausted_stays_exhausted(s, p, st, raw);
                law_step_moves_forward(s, p, st, raw);
            }
            match self.tokenizer.next() {
                None => {
                    out.append("\n");
                    return Some(out);
                },
                Some(Err(_)) => {
                    left = left - 1;
                },
                Some(Ok(token)) => {
                    proof {
                        self.tokenizer.lemma_wf();
                    }
                    if !renderer.accepts(&token) {
                        return None;
                    }
                    renderer.take(token, &mut out);
                    left = left - 1;
                    proof {
                        let line = render_token(rv, token@).unwrap().1;
                        match render_run(
                            s,
                            self.tokenizer.at(),
                            self.tokenizer.current_state(),
                            self.tokenizer.raw_name(),
                            renderer.view(),
                            left as nat,
                        ) {
                            Some(rest2) => assert(before + (line + rest2) =~= out@ + rest2),
                            None => {},
                        }
                    }
                },
            }
        }
    }
}

// ---------------------------------------------------------------------------
// Laws of the renderer.

/// `n` levels of indentation are `4 * n` spaces.
pub proof fn lemma_indentation(n: nat)
    ensures
        indentation(n) == Seq::new(4 * n, |i: int| ' '),
    decreases n,
{
    if n > 0 {
        lemma_indentation((n - 1) as nat);
        reveal_strlit("    ");
        assert("    "@ =~= seq![' ', ' ', ' ', ' ']);
        let a = indentation((n - 1) as nat);
        assert(indentation(n) == a + "    "@);
        assert(a.len() == 4 * (n - 1));
        assert forall|i: int| 0 <= i < 4 * n implies #[trigger] indentation(n)[i] == ' ' by {
            if i < 4 * (n - 1) {
                assert(indentation(n)[i] == a[i]);
            } else {
                assert(indentation(n)[i] == "    "@[i - 4 * (n - 1)]);
            }
        }
        assert(indentation(n).len() == 4 * n);
        assert(indentation(n) =~= Seq::new(4 * n, |i: int| ' '));
    } else {
        assert(indentation(n) =~= Seq::new(4 * n, |i: int| ' '));
    }
}

/// A text token read after the title and outside `script` and `style`,
/// while `r.indent` lists are open, gives exactly `4 * r.indent` spaces,
/// its words joined by single spaces and a line feed (nothing when it holds
/// no word), and leaves the renderer as it was.
pub proof fn law_text_indented_per_open_list(r: RenderState, b: Seq<u8>)
    requires
        !r.ignore,
        r.after_title,
    ensures
        render_token(r, TokenView::Text(b)) == Some(
            (
                r,
                if words(utf8_lossy(b)).len() == 0 {
                    Seq::<char>::empty()
                } else {
                    Seq::new(4 * r.indent, |i: int| ' ') + join_words(words(utf8_lossy(b))) + seq!['\n']
                },
            ),
        ),
{
    lemma_indentation(r.indent);
    reveal_strlit("\n");
    assert("\n"@ =~= seq!['\n']);
}

/// Text is rendered only after the title and outside `script` and `style`:
/// elsewhere a text token gives nothing and leaves the renderer as it was.
pub proof fn law_text_hidden_before_title_or_in_script(r: RenderState, b: Seq<u8>)
    requires
        r.ignore || !r.after_title,
    ensures
        render_token(r, TokenView::Text(b)) == Some((r, Seq::<char>::empty())),
{
}

/// `<ul>` opens one more list and `</ul>` closes one (there must be one
/// open); any other start or end tag leaves the count of open lists alone.
/// No tag gives a line.
pub proof fn law_lists_are_counted(r: RenderState, n: Seq<u8>)
    ensures
        render_token(r, TokenView::StartTag(seq![0x75u8, 0x6cu8])) matches Some((r2, line)) && r2.indent
            == r.indent + 1 && line.len() == 0,
        r.indent > 0 ==> (render_token(r, TokenView::EndTag(seq![0x75u8, 0x6cu8])) matches Some((r2, line))
            && r2.indent == r.indent - 1 && line.len() == 0),
        r.indent == 0 ==> render_token(r, TokenView::EndTag(seq![0x75u8, 0x6cu8])) is None,
        n != seq![0x75u8, 0x6cu8] ==> (render_token(r, TokenView::StartTag(n)) matches Some((r2, line))
            && r2.indent == r.indent && line.len() == 0),
        n != seq![0x75u8, 0x6cu8] ==> (render_token(r, TokenView::EndTag(n)) matches Some((r2, line))
            && r2.indent == r.indent && line.len() == 0),
{
    reveal_strlit("ul");
    assert(ascii("ul"@) =~= seq![0x75u8, 0x6cu8]);
}

/// `<script>` and `<style>` hide the text that follows until their end tag;
/// `<title>` starts the rendered text.
pub proof fn law_script_style_and_title(r: RenderState)
    ensures
        render_token(r, TokenView::StartTag(seq![0x73u8, 0x63u8, 0x72u8, 0x69u8, 0x70u8, 0x74u8]))
            matches Some((r2, _)) && r2.ignore,
        render_token(r, TokenView::StartTag(seq![0x73u8, 0x74u8, 0x79u8, 0x6cu8, 0x65u8])) matches Some(
            (r2, _),
        ) && r2.ignore,
        render_token(r, TokenView::EndTag(seq![0x73u8, 0x63u8, 0x72u8, 0x69u8, 0x70u8, 0x74u8]))
            matches Some((r2, _)) && !r2.ignore,
        render_token(r, TokenView::EndTag(seq![0x73u8, 0x74u8, 0x79u8, 0x6cu8, 0x65u8])) matches Some(
            (r2, _),
        ) && !r2.ignore,
        render_token(r, TokenView::StartTag(seq![0x74u8, 0x69u8, 0x74u8, 0x6cu8, 0x65u8])) matches Some(
            (r2, _),
        ) && r2.after_title,
{
    reveal_strlit("script");
    reveal_strlit("style");
    reveal_strlit("title");
    reveal_strlit("ul");
    assert(ascii("script"@) =~= seq![0x73u8, 0x63u8, 0x72u8, 0x69u8, 0x70u8, 0x74u8]);
    assert(ascii("style"@) =~= seq![0x73u8, 0x74u8, 0x79u8, 0x6cu8, 0x65u8]);
    assert(ascii("title"@) =~= seq![0x74u8, 0x69u8, 0x74u8, 0x6cu8, 0x65u8]);
    assert(ascii("ul"@) =~= seq![0x75u8, 0x6cu8]);
}

} // verus!
