//! Global guarantees of the parser, proved from the specification functions:
//! an input without structure yields the default window, the marker count of
//! a title line never leaks into the extracted title, declaration order is
//! preserved end to end, the window title is the last one written, the lines
//! handed to classification account for every character of the input, and a
//! binding line that precedes every group title is rejected with the
//! missing-group error.

use vstd::prelude::*;
use crate::bindings::{BindingView, GroupView, TabView, WindowView};
use crate::parser::{build_step, build_tokens, classify, initial_window, is_blank, parse_spec,
    split_lines, title_text, tokens_of, ParseError, TokenView};
use crate::text::{find_char, hash_run, is_space_char, lemma_find_char_props,
    lemma_hash_run_le_len, lemma_trim_back_keeps_head, lemma_trim_back_prepend, trim_back,
    trim_front, trimmed};

verus! {

/// The tab titles of a token stream, in emission order.
pub open spec fn tab_titles_of(tokens: Seq<TokenView>) -> Seq<Seq<char>>
    decreases tokens.len(),
{
    if tokens.len() == 0 {
        Seq::empty()
    } else {
        let rest = tab_titles_of(tokens.drop_first());
        match tokens[0] {
            TokenView::TabTitle(t) => seq![t] + rest,
            _ => rest,
        }
    }
}

/// The group titles of a token stream, in emission order.
pub open spec fn group_titles_of(tokens: Seq<TokenView>) -> Seq<Seq<char>>
    decreases tokens.len(),
{
    if tokens.len() == 0 {
        Seq::empty()
    } else {
        let rest = group_titles_of(tokens.drop_first());
        match tokens[0] {
            TokenView::GroupTitle(t) => seq![t] + rest,
            _ => rest,
        }
    }
}

/// The bindings of a token stream, in emission order.
pub open spec fn bindings_of(tokens: Seq<TokenView>) -> Seq<BindingView>
    decreases tokens.len(),
{
    if tokens.len() == 0 {
        Seq::empty()
    } else {
        let rest = bindings_of(tokens.drop_first());
        match tokens[0] {
            TokenView::Binding(b) => seq![b] + rest,
            _ => rest,
        }
    }
}

/// The tab titles of a window, in tab order.
pub open spec fn window_tab_titles(w: WindowView) -> Seq<Seq<char>> {
    w.tabs.map_values(|t: TabView| t.title)
}

/// All group titles of a tab sequence, flattened in declaration order.
pub open spec fn tabs_group_titles(tabs: Seq<TabView>) -> Seq<Seq<char>>
    decreases tabs.len(),
{
    if tabs.len() == 0 {
        Seq::empty()
    } else {
        tabs_group_titles(tabs.drop_last()) + tabs.last().groups.map_values(
            |g: GroupView| g.title,
        )
    }
}

/// All bindings of a group sequence, flattened in declaration order.
pub open spec fn groups_bindings(groups: Seq<GroupView>) -> Seq<BindingView>
    decreases groups.len(),
{
    if groups.len() == 0 {
        Seq::empty()
    } else {
        groups_bindings(groups.drop_last()) + groups.last().bindings
    }
}

/// All bindings of a tab sequence, flattened in declaration order.
pub open spec fn tabs_bindings(tabs: Seq<TabView>) -> Seq<BindingView>
    decreases tabs.len(),
{
    if tabs.len() == 0 {
        Seq::empty()
    } else {
        tabs_bindings(tabs.drop_last()) + groups_bindings(tabs.last().groups)
    }
}

proof fn lemma_build_order(tokens: Seq<TokenView>, acc: WindowView)
    requires
        build_tokens(tokens, acc) is Ok,
    ensures
        window_tab_titles(build_tokens(tokens, acc)->Ok_0) == window_tab_titles(acc)
            + tab_titles_of(tokens),
        tabs_group_titles(build_tokens(tokens, acc)->Ok_0.tabs) == tabs_group_titles(acc.tabs)
            + group_titles_of(tokens),
        tabs_bindings(build_tokens(tokens, acc)->Ok_0.tabs) == tabs_bindings(acc.tabs)
            + bindings_of(tokens),
    decreases tokens.len(),
{
    if tokens.len() == 0 {
        assert(window_tab_titles(acc) + tab_titles_of(tokens) =~= window_tab_titles(acc));
        assert(tabs_group_titles(acc.tabs) + group_titles_of(tokens) =~= tabs_group_titles(
            acc.tabs,
        ));
        assert(tabs_bindings(acc.tabs) + bindings_of(tokens) =~= tabs_bindings(acc.tabs));
    } else {
        let t = tokens[0];
        let rest = tokens.drop_first();
        let step = build_step(acc, t);
        if step is Err {
            assert(build_tokens(tokens, acc) is Err);
        }
        let acc2 = step->Ok_0;
        assert(build_tokens(tokens, acc) == build_tokens(rest, acc2));
        lemma_build_order(rest, acc2);
        match t {
            TokenView::WindowTitle(x) => {
                assert(acc2.tabs == acc.tabs);
                assert(window_tab_titles(acc2) == window_tab_titles(acc));
            },
            TokenView::TabTitle(x) => {
                let newtab = TabView { groups: Seq::empty(), title: x };
                assert(acc2.tabs == acc.tabs.push(newtab));
                assert(window_tab_titles(acc2) =~= window_tab_titles(acc).push(x));
                assert(window_tab_titles(acc2) + tab_titles_of(rest) =~= window_tab_titles(acc)
                    + (seq![x] + tab_titles_of(rest)));
                assert(acc2.tabs.drop_last() =~= acc.tabs);
                assert(acc2.tabs.last() == newtab);
                assert(tabs_group_titles(acc2.tabs) =~= tabs_group_titles(acc.tabs));
                assert(tabs_bindings(acc2.tabs) =~= tabs_bindings(acc.tabs));
            },
            TokenView::GroupTitle(x) => {
                assert(acc.tabs.len() > 0);
                let k = acc.tabs.len() as int - 1;
                let tab = acc.tabs[k];
                let newg = GroupView { bindings: Seq::empty(), title: x };
                let tab2 = TabView { groups: tab.groups.push(newg), ..tab };
                assert(acc2.tabs == acc.tabs.update(k, tab2));
                assert(window_tab_titles(acc2) =~= window_tab_titles(acc));
                assert(acc2.tabs.drop_last() =~= acc.tabs.drop_last());
                assert(acc2.tabs.last() == tab2);
                assert(acc.tabs.last() == tab);
                assert(tab2.groups.map_values(|g: GroupView| g.title) =~= tab.groups.map_values(
                    |g: GroupView| g.title,
                ).push(x));
                assert(tabs_group_titles(acc2.tabs) =~= tabs_group_titles(acc.tabs) + seq![x]);
                assert(tabs_group_titles(acc2.tabs) + group_titles_of(rest) =~= tabs_group_titles(
                    acc.tabs,
                ) + (seq![x] + group_titles_of(rest)));
                assert(tab2.groups.drop_last() =~= tab.groups);
                assert(tab2.groups.last() == newg);
                assert(groups_bindings(tab2.groups) =~= groups_bindings(tab.groups));
                assert(tabs_bindings(acc2.tabs) =~= tabs_bindings(acc.tabs));
            },
            TokenView::Binding(b) => {
                assert(acc.tabs.len() > 0);
                let k = acc.tabs.len() as int - 1;
                let tab = acc.tabs[k];
                assert(acc.tabs.last() == tab);
                assert(tab.groups.len() > 0);
                let m = tab.groups.len() as int - 1;
                let g = tab.groups[m];
                let g2 = GroupView { bindings: g.bindings.push(b), ..g };
                let tab2 = TabView { groups: tab.groups.update(m, g2), ..tab };
                assert(acc2.tabs == acc.tabs.update(k, tab2));
                assert(window_tab_titles(acc2) =~= window_tab_titles(acc));
                assert(acc2.tabs.drop_last() =~= acc.tabs.drop_last());
                assert(acc2.tabs.last() == tab2);
                assert(tab2.groups.map_values(|gr: GroupView| gr.title) =~= tab.groups.map_values(
                    |gr: GroupView| gr.title,
                ));
                assert(tabs_group_titles(acc2.tabs) =~= tabs_group_titles(acc.tabs));
                assert(tab2.groups.drop_last() =~= tab.groups.drop_last());
                assert(tab2.groups.last() == g2);
                assert(tab.groups.last() == g);
                assert(groups_bindings(tab2.groups) =~= groups_bindings(tab.groups) + seq![b]);
                assert(tabs_bindings(acc2.tabs) =~= tabs_bindings(acc.tabs) + seq![b]);
                assert(tabs_bindings(acc2.tabs) + bindings_of(rest) =~= tabs_bindings(acc.tabs)
                    + (seq![b] + bindings_of(rest)));
            },
            TokenView::Skip => {
                assert(acc2 == acc);
            },
        }
    }
}

/// Declaration order is preserved: in a successfully parsed window, the tab
/// titles, the group titles, and the bindings appear exactly as their tokens
/// appear in the input's token stream, in the same order.
pub proof fn lemma_declaration_order(s: Seq<char>)
    requires
        parse_spec(s) is Ok,
    ensures
        window_tab_titles(parse_spec(s)->Ok_0) == tab_titles_of(tokens_of(s)),
        tabs_group_titles(parse_spec(s)->Ok_0.tabs) == group_titles_of(tokens_of(s)),
        tabs_bindings(parse_spec(s)->Ok_0.tabs) == bindings_of(tokens_of(s)),
{
    lemma_build_order(tokens_of(s), initial_window());
    assert(window_tab_titles(initial_window()) =~= Seq::<Seq<char>>::empty());
    assert(Seq::<Seq<char>>::empty() + tab_titles_of(tokens_of(s)) =~= tab_titles_of(
        tokens_of(s),
    ));
    assert(Seq::<Seq<char>>::empty() + group_titles_of(tokens_of(s)) =~= group_titles_of(
        tokens_of(s),
    ));
    assert(Seq::<BindingView>::empty() + bindings_of(tokens_of(s)) =~= bindings_of(tokens_of(s)));
}

proof fn lemma_build_all_skip(tokens: Seq<TokenView>, acc: WindowView)
    requires
        forall|i: int| 0 <= i < tokens.len() ==> tokens[i] is Skip,
    ensures
        build_tokens(tokens, acc) == Ok::<WindowView, ParseError>(acc),
    decreases tokens.len(),
{
    if tokens.len() > 0 {
        assert(tokens[0] is Skip);
        assert forall|i: int| 0 <= i < tokens.drop_first().len() implies tokens.drop_first()[i]
            is Skip by {
            assert(tokens.drop_first()[i] == tokens[i + 1]);
        }
        lemma_build_all_skip(tokens.drop_first(), acc);
    }
}

/// A blank line is always skipped by classification.
pub proof fn lemma_blank_line_skipped(line: Seq<char>)
    requires
        is_blank(line),
    ensures
        classify(line) is Skip,
{
    if line.len() > 0 && line[0] == '#' {
        assert(!is_space_char(line[0]));
        assert(trim_front(line) == line);
        lemma_trim_back_keeps_head(line);
        assert(false);
    }
}

/// An input in which every line is blank — no marker line and no binding
/// line — parses to the default window: the default title and no tabs.
pub proof fn lemma_blank_input_gives_default(s: Seq<char>)
    requires
        forall|i: int| 0 <= i < split_lines(s).len() ==> is_blank(#[trigger] split_lines(s)[i]),
    ensures
        parse_spec(s) == Ok::<WindowView, ParseError>(initial_window()),
{
    assert forall|i: int| 0 <= i < tokens_of(s).len() implies tokens_of(s)[i] is Skip by {
        let line = split_lines(s)[i];
        lemma_blank_line_skipped(line);
        assert(tokens_of(s)[i] == classify(line));
    }
    lemma_build_all_skip(tokens_of(s), initial_window());
}

/// The marker count never leaks into the extracted title: prepending one
/// more `#` marker to a line that does not start with whitespace leaves the
/// title text unchanged.
pub proof fn lemma_marker_count_ignored(line: Seq<char>)
    requires
        line.len() == 0 || !is_space_char(line[0]),
    ensures
        title_text(seq!['#'] + line) == title_text(line),
{
    let l2 = seq!['#'] + line;
    assert(l2[0] == '#');
    assert(!is_space_char(l2[0]));
    assert(trim_front(l2) == l2);
    if line.len() == 0 {
        assert(l2 =~= seq!['#']);
        assert(l2.last() == '#');
        assert(trim_back(l2) == l2);
        assert(hash_run(l2.drop_first()) == 0);
        assert(hash_run(l2) == 1);
        assert(l2.skip(1) =~= Seq::<char>::empty());
        assert(trim_front(line) == line);
        assert(trim_back(line) == line);
        assert(hash_run(line) == 0);
        assert(line.skip(0) =~= line);
    } else {
        assert(trim_front(line) == line);
        let t = trim_back(line);
        lemma_trim_back_prepend('#', line);
        assert(trimmed(l2) == seq!['#'] + t);
        lemma_trim_back_keeps_head(line);
        let t2 = seq!['#'] + t;
        assert(t2.drop_first() =~= t);
        assert(hash_run(t2) == hash_run(t) + 1);
        lemma_hash_run_le_len(t);
        assert(t2.skip(hash_run(t2) as int) =~= t.skip(hash_run(t) as int));
    }
}

/// The text of the last window-title token of a stream, or `dflt` if the
/// stream has none.
pub open spec fn last_window_title(tokens: Seq<TokenView>, dflt: Seq<char>) -> Seq<char>
    decreases tokens.len(),
{
    if tokens.len() == 0 {
        dflt
    } else {
        match tokens[0] {
            TokenView::WindowTitle(t) => last_window_title(tokens.drop_first(), t),
            _ => last_window_title(tokens.drop_first(), dflt),
        }
    }
}

proof fn lemma_build_window_title(tokens: Seq<TokenView>, acc: WindowView)
    requires
        build_tokens(tokens, acc) is Ok,
    ensures
        build_tokens(tokens, acc)->Ok_0.title == last_window_title(tokens, acc.title),
    decreases tokens.len(),
{
    if tokens.len() > 0 {
        let step = build_step(acc, tokens[0]);
        if step is Err {
            assert(build_tokens(tokens, acc) is Err);
        }
        lemma_build_window_title(tokens.drop_first(), step->Ok_0);
    }
}

/// The window title is the last one written: a successfully parsed window
/// carries the text of the input's last window-title token, or the default
/// title if the input never sets one.
pub proof fn lemma_window_title_last_write(s: Seq<char>)
    requires
        parse_spec(s) is Ok,
    ensures
        parse_spec(s)->Ok_0.title == last_window_title(tokens_of(s), initial_window().title),
{
    lemma_build_window_title(tokens_of(s), initial_window());
}

/// The lines of a text joined back together with `\n` separators.
pub open spec fn join_lines(lines: Seq<Seq<char>>) -> Seq<char>
    decreases lines.len(),
{
    if lines.len() == 0 {
        Seq::empty()
    } else if lines.len() == 1 {
        lines[0]
    } else {
        lines[0] + seq!['\n'] + join_lines(lines.drop_first())
    }
}

/// Tokenization is total and accounts for every character of the input: the
/// lines handed to classification join back, with their `\n` separators, to
/// exactly the input text.
pub proof fn lemma_split_lines_cover_input(s: Seq<char>)
    ensures
        join_lines(split_lines(s)) == s,
    decreases s.len(),
{
    lemma_find_char_props(s, '\n');
    let i = find_char(s, '\n');
    if i == s.len() {
        assert(split_lines(s) == seq![s]);
        assert(seq![s][0] == s);
    } else {
        let rest = split_lines(s.skip(i + 1));
        lemma_split_lines_cover_input(s.skip(i + 1));
        let lines = seq![s.take(i)] + rest;
        assert(split_lines(s) == lines);
        assert(rest.len() >= 1);
        assert(lines.len() >= 2);
        assert(lines[0] == s.take(i));
        assert(lines.drop_first() =~= rest);
        assert(join_lines(lines) == lines[0] + seq!['\n'] + join_lines(rest));
        assert(s.take(i) + seq!['\n'] + s.skip(i + 1) =~= s);
    }
}

proof fn lemma_build_orphan_binding(tokens: Seq<TokenView>, acc: WindowView, i: int)
    requires
        0 <= i < tokens.len(),
        tokens[i] is Binding,
        forall|j: int| 0 <= j < i ==> tokens[j] is Skip,
        acc.tabs.len() == 0,
    ensures
        build_tokens(tokens, acc) == Err::<WindowView, ParseError>(ParseError::NoPreviousGroup),
    decreases i,
{
    if i == 0 {
        assert(build_step(acc, tokens[0]) == Err::<WindowView, ParseError>(
            ParseError::NoPreviousGroup,
        ));
    } else {
        assert(tokens[0] is Skip);
        assert(tokens.drop_first()[i - 1] == tokens[i]);
        assert forall|j: int| 0 <= j < i - 1 implies tokens.drop_first()[j] is Skip by {
            assert(tokens.drop_first()[j] == tokens[j + 1]);
        }
        lemma_build_orphan_binding(tokens.drop_first(), acc, i - 1);
    }
}

/// Fatal path: an input whose first token that is not skipped is a binding —
/// its first non-blank line is a binding line, with no group title before it
/// — is rejected with the missing-group error.
pub proof fn lemma_orphan_binding_rejected(s: Seq<char>, i: int)
    requires
        0 <= i < tokens_of(s).len(),
        tokens_of(s)[i] is Binding,
        forall|j: int| 0 <= j < i ==> tokens_of(s)[j] is Skip,
    ensures
        parse_spec(s) == Err::<WindowView, ParseError>(ParseError::NoPreviousGroup),
{
    lemma_build_orphan_binding(tokens_of(s), initial_window(), i);
}

} // verus!
