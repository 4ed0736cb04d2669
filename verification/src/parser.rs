//! The tokenizer and tree builder.
//!
//! Input text is split into lines; each line is classified by its leading run
//! of `#` markers (three or more: window title, exactly two: tab title,
//! exactly one: group title), any other non-blank line is a key binding, and
//! blank lines are skipped.  The builder folds the token sequence into a
//! [`Window`], appending to the most recently opened tab and group, and fails
//! on a group with no enclosing tab or a binding with no enclosing group.

use vstd::prelude::*;
use vstd::string::StrSliceExecFns;
use crate::bindings::{Binding, BindingGroup, BindingView, GroupView, Tab, TabView, Window,
    WindowView};
use crate::text::{chars_of, find_char, find_range, hash_run, hash_run_range, trim_range,
    trimmed};

verus! {

/// The reason a structurally malformed input was rejected.
#[derive(Debug, Clone, Copy, PartialEq, Eq)]
pub enum ParseError {
    /// A group title appeared before any tab title.
    NoPreviousTab,
    /// A binding line appeared before any group title.
    NoPreviousGroup,
}

/// One classified input line.
#[derive(Debug, PartialEq)]
pub enum Token {
    WindowTitle(String),
    TabTitle(String),
    GroupTitle(String),
    Binding(Binding),
    Skip,
}

/// Mathematical view of a [`Token`].
pub ghost enum TokenView {
    WindowTitle(Seq<char>),
    TabTitle(Seq<char>),
    GroupTitle(Seq<char>),
    Binding(BindingView),
    Skip,
}

impl View for Token {
    type V = TokenView;

    open spec fn view(&self) -> TokenView {
        match self {
            Token::WindowTitle(t) => TokenView::WindowTitle(t@),
            Token::TabTitle(t) => TokenView::TabTitle(t@),
            Token::GroupTitle(t) => TokenView::GroupTitle(t@),
            Token::Binding(b) => TokenView::Binding(b@),
            Token::Skip => TokenView::Skip,
        }
    }
}

/// The text of a title line: the line with surrounding whitespace, then the
/// leading run of `#` markers, then (again) surrounding whitespace removed.
pub open spec fn title_text(line: Seq<char>) -> Seq<char> {
    let t = trimmed(line);
    trimmed(t.skip(hash_run(t) as int))
}

/// The binding a non-blank line denotes: the text before the first `|`
/// (trimmed) is the keys; the text between the first and a possible second
/// `|` (trimmed) is the action, empty if there is no `|`; anything after a
/// second `|` is discarded.
pub open spec fn binding_of(line: Seq<char>) -> BindingView {
    let i = find_char(line, '|');
    BindingView {
        keys: trimmed(line.take(i)),
        action: if i == line.len() {
            Seq::<char>::empty()
        } else {
            let rest = line.skip(i + 1);
            trimmed(rest.take(find_char(rest, '|')))
        },
    }
}

/// A line is blank when it holds only whitespace.
pub open spec fn is_blank(line: Seq<char>) -> bool {
    trimmed(line).len() == 0
}

/// Classification of one line, most specific marker first.
pub open spec fn classify(line: Seq<char>) -> TokenView {
    let h = hash_run(line);
    if h >= 3 {
        TokenView::WindowTitle(title_text(line))
    } else if h == 2 {
        TokenView::TabTitle(title_text(line))
    } else if h == 1 {
        TokenView::GroupTitle(title_text(line))
    } else if !is_blank(line) {
        TokenView::Binding(binding_of(line))
    } else {
        TokenView::Skip
    }
}

/// The lines of `s`: the segments between `\n` characters.  Every character
/// of `s` is accounted for, and there is always at least one line.
pub open spec fn split_lines(s: Seq<char>) -> Seq<Seq<char>>
    decreases s.len(),
    via split_lines_decreases
{
    let i = find_char(s, '\n');
    if i == s.len() {
        seq![s]
    } else {
        seq![s.take(i)] + split_lines(s.skip(i + 1))
    }
}

#[via_fn]
proof fn split_lines_decreases(s: Seq<char>) {
    crate::text::lemma_find_char_props(s, '\n');
}

/// The token stream of an input text: each line classified, in order.
pub open spec fn tokens_of(s: Seq<char>) -> Seq<TokenView> {
    split_lines(s).map_values(|l: Seq<char>| classify(l))
}

/// The window every parse starts from: the default title and no tabs.
pub open spec fn initial_window() -> WindowView {
    WindowView { tabs: Seq::empty(), title: "Mapping Viewer"@ }
}

/// The effect of one token on the partially built window, or the structural
/// error it raises.  A window title overwrites the current one (last write
/// wins); a tab title appends an empty tab; a group title appends an empty
/// group to the last tab; a binding appends to the last group of the last
/// tab; a skipped line changes nothing.
pub open spec fn build_step(acc: WindowView, t: TokenView) -> Result<WindowView, ParseError> {
    match t {
        TokenView::WindowTitle(s) => Ok(WindowView { title: s, ..acc }),
        TokenView::TabTitle(s) => Ok(
            WindowView { tabs: acc.tabs.push(TabView { groups: Seq::empty(), title: s }), ..acc },
        ),
        TokenView::GroupTitle(s) => {
            if acc.tabs.len() == 0 {
                Err(ParseError::NoPreviousTab)
            } else {
                let k = acc.tabs.len() as int - 1;
                let tab = acc.tabs[k];
                let tab2 = TabView {
                    groups: tab.groups.push(GroupView { bindings: Seq::empty(), title: s }),
                    ..tab
                };
                Ok(WindowView { tabs: acc.tabs.update(k, tab2), ..acc })
            }
        },
        TokenView::Binding(b) => {
            if acc.tabs.len() == 0 || acc.tabs.last().groups.len() == 0 {
                Err(ParseError::NoPreviousGroup)
            } else {
                let k = acc.tabs.len() as int - 1;
                let tab = acc.tabs[k];
                let m = tab.groups.len() as int - 1;
                let g = tab.groups[m];
                let g2 = GroupView { bindings: g.bindings.push(b), ..g };
                let tab2 = TabView { groups: tab.groups.update(m, g2), ..tab };
                Ok(WindowView { tabs: acc.tabs.update(k, tab2), ..acc })
            }
        },
        TokenView::Skip => Ok(acc),
    }
}

/// Folds a token sequence into a window, stopping at the first structural
/// error.
pub open spec fn build_tokens(tokens: Seq<TokenView>, acc: WindowView) -> Result<
    WindowView,
    ParseError,
>
    decreases tokens.len(),
{
    if tokens.len() == 0 {
        Ok(acc)
    } else {
        match build_step(acc, tokens[0]) {
            Ok(acc2) => build_tokens(tokens.drop_first(), acc2),
            Err(e) => Err(e),
        }
    }
}

/// What parsing an input text yields: the fold of its token stream starting
/// from the default window.
pub open spec fn parse_spec(s: Seq<char>) -> Result<WindowView, ParseError> {
    build_tokens(tokens_of(s), initial_window())
}

/// Strips the leading `#` markers and surrounding whitespace from a title
/// line.
pub fn title_from_string(val: &str) -> (r: String)
    ensures
        r@ == title_text(val@),
{
    let chars = chars_of(val);
    let n = chars.len();
    let (a, b) = title_range(&chars, 0, n);
    proof {
        assert(chars@.subrange(0, n as int) =~= val@);
    }
    val.substring_char(a, b).to_owned()
}

/// Splits a binding line into its keys and action fields.
pub fn binding_from_string(val: &str) -> (r: Binding)
    ensures
        r@ == binding_of(val@),
{
    let chars = chars_of(val);
    let n = chars.len();
    let (kr, ar) = binding_ranges(&chars, 0, n);
    proof {
        assert(chars@.subrange(0, n as int) =~= val@);
    }
    let r = Binding {
        keys: val.substring_char(kr.0, kr.1).to_owned(),
        action: val.substring_char(ar.0, ar.1).to_owned(),
    };
    proof {
        assert(r@ =~= binding_of(val@));
    }
    r
}

/// Locates the title text within `chars[lo..hi]`: the bounds of the line
/// with whitespace, leading `#` markers, and whitespace again removed.
fn title_range(chars: &Vec<char>, lo: usize, hi: usize) -> (r: (usize, usize))
    requires
        lo <= hi <= chars@.len(),
    ensures
        lo <= r.0 <= r.1 <= hi,
        title_text(chars@.subrange(lo as int, hi as int)) == chars@.subrange(
            r.0 as int,
            r.1 as int,
        ),
{
    let (a1, b1) = trim_range(chars, lo, hi);
    let h = hash_run_range(chars, a1, b1);
    let a2 = a1 + h;
    let (a3, b3) = trim_range(chars, a2, b1);
    proof {
        let t = trimmed(chars@.subrange(lo as int, hi as int));
        assert(t.skip(h as int) =~= chars@.subrange(a2 as int, b1 as int));
    }
    (a3, b3)
}

/// Locates the keys and action fields of a binding line within
/// `chars[lo..hi]`.
fn binding_ranges(chars: &Vec<char>, lo: usize, hi: usize) -> (r: ((usize, usize), (usize, usize)))
    requires
        lo <= hi <= chars@.len(),
    ensures
        lo <= r.0.0 <= r.0.1 <= hi,
        lo <= r.1.0 <= r.1.1 <= hi,
        binding_of(chars@.subrange(lo as int, hi as int)).keys == chars@.subrange(
            r.0.0 as int,
            r.0.1 as int,
        ),
        binding_of(chars@.subrange(lo as int, hi as int)).action == chars@.subrange(
            r.1.0 as int,
            r.1.1 as int,
        ),
{
    let ghost line = chars@.subrange(lo as int, hi as int);
    let p = find_range(chars, lo, hi, '|');
    let (k0, k1) = trim_range(chars, lo, p);
    proof {
        assert(line.take(p as int - lo as int) =~= chars@.subrange(lo as int, p as int));
    }
    if p == hi {
        proof {
            assert(chars@.subrange(hi as int, hi as int) =~= Seq::<char>::empty());
        }
        ((k0, k1), (hi, hi))
    } else {
        let q = find_range(chars, p + 1, hi, '|');
        let (a0, a1) = trim_range(chars, p + 1, q);
        proof {
            let rest = line.skip(p as int - lo as int + 1);
            assert(rest =~= chars@.subrange(p as int + 1, hi as int));
            assert(rest.take(q as int - (p as int + 1)) =~= chars@.subrange(
                p as int + 1,
                q as int,
            ));
        }
        ((k0, k1), (a0, a1))
    }
}

/// Classifies the line `chars[lo..hi]`, extracting any title or binding text
/// from `src` (the string `chars` was read from).
fn classify_token(src: &str, chars: &Vec<char>, lo: usize, hi: usize) -> (t: Token)
    requires
        chars@ == src@,
        lo <= hi <= chars@.len(),
    ensures
        t@ == classify(chars@.subrange(lo as int, hi as int)),
{
    let h = hash_run_range(chars, lo, hi);
    if h >= 1 {
        let (a, b) = title_range(chars, lo, hi);
        let text = src.substring_char(a, b).to_owned();
        if h >= 3 {
            Token::WindowTitle(text)
        } else if h == 2 {
            Token::TabTitle(text)
        } else {
            Token::GroupTitle(text)
        }
    } else {
        let (a, b) = trim_range(chars, lo, hi);
        if a == b {
            Token::Skip
        } else {
            let (kr, ar) = binding_ranges(chars, lo, hi);
            let b = Binding {
                keys: src.substring_char(kr.0, kr.1).to_owned(),
                action: src.substring_char(ar.0, ar.1).to_owned(),
            };
            proof {
                assert(b@ =~= binding_of(chars@.subrange(lo as int, hi as int)));
            }
            Token::Binding(b)
        }
    }
}

/// Applies one token to the window under construction, or reports the
/// structural error it raises, leaving the window unspecified.
fn apply_token(window: &mut Window, t: Token) -> (r: Result<(), ParseError>)
    ensures
        r is Ok ==> build_step(old(window)@, t@) == Ok::<WindowView, ParseError>(
            final(window)@,
        ),
        r matches Err(e) ==> build_step(old(window)@, t@) == Err::<WindowView, ParseError>(e),
{
    match t {
        Token::WindowTitle(title) => {
            window.title = title;
            proof {
                assert(window@ =~~= build_step(old(window)@, t@)->Ok_0);
            }
            Ok(())
        },
        Token::TabTitle(title) => {
            window.tabs.push(Tab { groups: Vec::new(), title });
            proof {
                assert(window@ =~~= build_step(old(window)@, t@)->Ok_0);
            }
            Ok(())
        },
        Token::GroupTitle(title) => {
            if window.tabs.len() == 0 {
                return Err(ParseError::NoPreviousTab);
            }
            let mut tab = window.tabs.pop().unwrap();
            tab.groups.push(BindingGroup { bindings: Vec::new(), title });
            window.tabs.push(tab);
            proof {
                assert(window@ =~~= build_step(old(window)@, t@)->Ok_0);
            }
            Ok(())
        },
        Token::Binding(b) => {
            if window.tabs.len() == 0 {
                return Err(ParseError::NoPreviousGroup);
            }
            let mut tab = window.tabs.pop().unwrap();
            if tab.groups.len() == 0 {
                window.tabs.push(tab);
                return Err(ParseError::NoPreviousGroup);
            }
            let mut group = tab.groups.pop().unwrap();
            group.bindings.push(b);
            tab.groups.push(group);
            window.tabs.push(tab);
            proof {
                assert(window@ =~~= build_step(old(window)@, t@)->Ok_0);
            }
            Ok(())
        },
        Token::Skip => {
            Ok(())
        },
    }
}

/// Parses an input text into a window: lines are classified and folded into
/// the tree in declaration order.  Returns the completed window, or the
/// structural error exactly when the token stream raises one.
pub fn parse_bindings(input: &str) -> (r: Result<Window, ParseError>)
    ensures
        r matches Ok(w) ==> parse_spec(input@) == Ok::<WindowView, ParseError>(w@),
        r matches Err(e) ==> parse_spec(input@) == Err::<WindowView, ParseError>(e),
{
    let chars = chars_of(input);
    let n = chars.len();
    let mut window = Window { tabs: Vec::new(), title: "Mapping Viewer".to_owned() };
    proof {
        assert(window@ =~~= initial_window());
        assert(chars@.skip(0) =~= chars@);
    }
    let mut start: usize = 0;
    loop
        invariant
            start <= n,
            n == chars@.len(),
            chars@ == input@,
            build_tokens(tokens_of(chars@.skip(start as int)), window@) == parse_spec(input@),
        decreases n - start,
    {
        let e = find_range(&chars, start, n, '\n');
        let t = classify_token(input, &chars, start, e);
        let ghost suf = chars@.skip(start as int);
        let ghost line = chars@.subrange(start as int, e as int);
        proof {
            assert(chars@.subrange(start as int, n as int) =~= suf);
            assert(find_char(suf, '\n') == e - start);
            if e == n {
                assert(suf =~= line);
                assert(split_lines(suf) == seq![line]);
                assert(tokens_of(suf) =~= seq![classify(line)]);
                assert(tokens_of(suf).drop_first() =~= Seq::<TokenView>::empty());
            } else {
                let rest = chars@.skip(e as int + 1);
                assert(suf.take(e as int - start as int) =~= line);
                assert(suf.skip(e as int - start as int + 1) =~= rest);
                assert(split_lines(suf) == seq![line] + split_lines(rest));
                assert(tokens_of(suf) =~= seq![classify(line)] + tokens_of(rest));
                assert(tokens_of(suf).drop_first() =~= tokens_of(rest));
            }
            assert(tokens_of(suf)[0] == classify(line));
        }
        let ghost w0 = window@;
        match apply_token(&mut window, t) {
            Ok(()) => {},
            Err(err) => {
                return Err(err);
            },
        }
        if e == n {
            proof {
                assert(build_step(w0, t@) == Ok::<WindowView, ParseError>(window@));
                assert(build_tokens(tokens_of(suf), w0) == build_tokens(
                    tokens_of(suf).drop_first(),
                    window@,
                ));
                assert(build_tokens(Seq::<TokenView>::empty(), window@)
                    == Ok::<WindowView, ParseError>(window@));
            }
            return Ok(window);
        }
        start = e + 1;
    }
}

/// The tokens the tokenizer emits: every classified line in order, with the
/// skipped (blank) lines left out.
pub open spec fn emitted(tokens: Seq<TokenView>) -> Seq<TokenView>
    decreases tokens.len(),
{
    if tokens.len() == 0 {
        Seq::empty()
    } else if tokens[0] is Skip {
        emitted(tokens.drop_first())
    } else {
        seq![tokens[0]] + emitted(tokens.drop_first())
    }
}

/// Tokenizes an input text: classifies every line in order and returns the
/// resulting tokens, blank lines dropped.
pub fn tokenize(input: &str) -> (r: Vec<Token>)
    ensures
        r@.map_values(|t: Token| t@) == emitted(tokens_of(input@)),
{
    let chars = chars_of(input);
    let n = chars.len();
    let mut out: Vec<Token> = Vec::new();
    proof {
        assert(chars@.skip(0) =~= chars@);
        assert(out@.map_values(|t: Token| t@) + emitted(tokens_of(chars@)) =~= emitted(
            tokens_of(chars@),
        ));
    }
    let mut start: usize = 0;
    loop
        invariant
            start <= n,
            n == chars@.len(),
            chars@ == input@,
            out@.map_values(|t: Token| t@) + emitted(tokens_of(chars@.skip(start as int)))
                == emitted(tokens_of(input@)),
        decreases n - start,
    {
        let e = find_range(&chars, start, n, '\n');
        let t = classify_token(input, &chars, start, e);
        let ghost suf = chars@.skip(start as int);
        let ghost line = chars@.subrange(start as int, e as int);
        let ghost prev = out@.map_values(|t: Token| t@);
        proof {
            assert(chars@.subrange(start as int, n as int) =~= suf);
            assert(find_char(suf, '\n') == e - start);
            if e == n {
                assert(suf =~= line);
                assert(split_lines(suf) == seq![line]);
                assert(tokens_of(suf) =~= seq![classify(line)]);
                assert(tokens_of(suf).drop_first() =~= Seq::<TokenView>::empty());
            } else {
                let rest = chars@.skip(e as int + 1);
                assert(suf.take(e as int - start as int) =~= line);
                assert(suf.skip(e as int - start as int + 1) =~= rest);
                assert(split_lines(suf) == seq![line] + split_lines(rest));
                assert(tokens_of(suf) =~= seq![classify(line)] + tokens_of(rest));
                assert(tokens_of(suf).drop_first() =~= tokens_of(rest));
            }
            assert(tokens_of(suf)[0] == classify(line));
        }
        let is_skip = match &t {
            Token::Skip => true,
            _ => false,
        };
        if !is_skip {
            proof {
                assert(emitted(tokens_of(suf)) =~= seq![t@] + emitted(
                    tokens_of(suf).drop_first(),
                ));
            }
            out.push(t);
            proof {
                assert(out@.map_values(|t: Token| t@) =~= prev.push(t@));
                assert(prev.push(t@) + emitted(tokens_of(suf).drop_first()) =~= prev + emitted(
                    tokens_of(suf),
                ));
            }
        }
        if e == n {
            proof {
                assert(emitted(Seq::<TokenView>::empty()) =~= Seq::<TokenView>::empty());
                assert(out@.map_values(|t: Token| t@) + Seq::<TokenView>::empty() =~= out@
                    .map_values(|t: Token| t@));
            }
            return out;
        }
        start = e + 1;
    }
}

} // verus!
