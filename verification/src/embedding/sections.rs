//! Splitting markdown into sections by heading.
//!
//! Each section carries the path of headings above it (the enclosing
//! headings of lower level, then its own) and the lines below its heading.
//! Lines inside code fences are body text, never headings.

use vstd::prelude::*;
use crate::text::{
    chars_of, join, join_strs, lines, lines_of, push_chars, starts_with, starts_with_chars, string_of,
    strs, trim, trim_chars, trim_start, trim_start_chars,
};

verus! {

/// Number of leading `'#'` characters.
pub open spec fn lead_hashes(s: Seq<char>) -> nat
    decreases s.len(),
{
    if s.len() > 0 && s[0] == '#' {
        1 + lead_hashes(s.drop_first())
    } else {
        0
    }
}

/// The level and text of a heading line: one to six `'#'` after optional
/// leading whitespace, then non-blank text.
pub open spec fn heading_of(line: Seq<char>) -> Option<(u8, Seq<char>)> {
    let t = trim_start(line);
    let h = lead_hashes(t);
    if h == 0 || h > 6 {
        None
    } else {
        let rem = trim_start(t.skip(h as int));
        if rem.len() == 0 {
            None
        } else {
            Some((h as u8, trim(rem)))
        }
    }
}

/// Parse a heading line into its level and text.
pub fn parse_heading_line(line: &str) -> (r: Option<(u8, String)>)
    ensures
        match r {
            Some(p) => heading_of(line@) == Some((p.0, p.1@)),
            None => heading_of(line@) is None,
        },
{
    let lc = chars_of(line);
    let t = trim_start_chars(lc.as_slice());
    let mut h: usize = 0;
    assert(t@.skip(0) == t@);
    while h < t.len() && t[h] == '#'
        invariant
            h <= t@.len(),
            lead_hashes(t@) == h + lead_hashes(t@.skip(h as int)),
        decreases t@.len() - h,
    {
        assert(t@.skip(h as int).drop_first() == t@.skip(h + 1));
        h = h + 1;
    }
    assert(lead_hashes(t@) == h) by {
        if h < t@.len() {
            assert(t@.skip(h as int)[0] == t@[h as int]);
        }
    }
    if h == 0 || h > 6 {
        return None;
    }
    let mut rest: Vec<char> = Vec::new();
    let mut i = h;
    while i < t.len()
        invariant
            h <= i <= t@.len(),
            rest@ == t@.subrange(h as int, i as int),
        decreases t@.len() - i,
    {
        rest.push(t[i]);
        i = i + 1;
    }
    assert(rest@ == t@.skip(h as int));
    let rem = trim_start_chars(rest.as_slice());
    if rem.len() == 0 {
        return None;
    }
    let text = string_of(trim_chars(rem.as_slice()).as_slice());
    Some((h as u8, text))
}

/// Mathematical model of a [`Section`].
pub struct SectionView {
    pub heading_path: Seq<Seq<char>>,
    pub body: Seq<char>,
}

/// A section of a markdown note.
#[derive(Debug, Clone)]
pub struct Section {
    /// The headings above the section, outermost first.
    pub heading_path: Vec<String>,
    /// The section's text.
    pub body: String,
}

impl View for Section {
    type V = SectionView;

    open spec fn view(&self) -> SectionView {
        SectionView { heading_path: strs(self.heading_path@), body: self.body@ }
    }
}

/// The views of a sequence of sections.
pub open spec fn section_views(v: Seq<Section>) -> Seq<SectionView> {
    v.map_values(|s: Section| s@)
}

/// The state of the section splitter between lines.
pub struct SplitState {
    pub sections: Seq<SectionView>,
    pub current: SectionView,
    pub stack: Seq<(u8, Seq<char>)>,
    pub in_fence: bool,
    pub fence: Seq<char>,
}

/// The state before the first line.
pub open spec fn initial_split() -> SplitState {
    SplitState {
        sections: Seq::empty(),
        current: SectionView { heading_path: Seq::empty(), body: Seq::empty() },
        stack: Seq::empty(),
        in_fence: false,
        fence: Seq::empty(),
    }
}

/// The heading stack without the entries of level `level` or deeper at its top.
pub open spec fn pop_ge(stack: Seq<(u8, Seq<char>)>, level: u8) -> Seq<(u8, Seq<char>)>
    decreases stack.len(),
{
    if stack.len() > 0 && stack.last().0 >= level {
        pop_ge(stack.drop_last(), level)
    } else {
        stack
    }
}

/// The heading texts of a stack.
pub open spec fn stack_texts(stack: Seq<(u8, Seq<char>)>) -> Seq<Seq<char>> {
    stack.map_values(|e: (u8, Seq<char>)| e.1)
}

/// Whether a finished section is kept: it has text or headings.
pub open spec fn keeps(s: SectionView) -> bool {
    trim(s.body).len() > 0 || s.heading_path.len() > 0
}

/// Whether a line opens or closes a code fence.
pub open spec fn is_fence_line(line: Seq<char>) -> bool {
    starts_with(trim_start(line), "```"@) || starts_with(trim_start(line), "~~~"@)
}

/// The state with `line` added to the current section's body.
pub open spec fn with_line(st: SplitState, line: Seq<char>) -> SplitState {
    SplitState {
        current: SectionView { body: st.current.body + line + seq!['\n'], ..st.current },
        ..st
    }
}

/// The state after one line.
pub open spec fn split_step(st: SplitState, line: Seq<char>) -> SplitState {
    if is_fence_line(line) {
        let marker = trim_start(line).take(3);
        let st2 = if !st.in_fence {
            SplitState { in_fence: true, fence: marker, ..st }
        } else if marker == st.fence {
            SplitState { in_fence: false, fence: Seq::empty(), ..st }
        } else {
            st
        };
        with_line(st2, line)
    } else if st.in_fence {
        with_line(st, line)
    } else {
        match heading_of(line) {
            Some(h) => {
                let sections = if keeps(st.current) {
                    st.sections.push(st.current)
                } else {
                    st.sections
                };
                let stack = pop_ge(st.stack, h.0).push(h);
                SplitState {
                    sections,
                    current: SectionView { heading_path: stack_texts(stack), body: Seq::empty() },
                    stack,
                    ..st
                }
            },
            None => with_line(st, line),
        }
    }
}

/// The state after the given lines.
pub open spec fn split_run(ls: Seq<Seq<char>>) -> SplitState
    decreases ls.len(),
{
    if ls.len() == 0 {
        initial_split()
    } else {
        split_step(split_run(ls.drop_last()), ls.last())
    }
}

/// The sections of markdown `content`: the kept sections in order, or the
/// whole content as one section when none is kept and it is not blank.
pub open spec fn sections_of(content: Seq<char>) -> Seq<SectionView> {
    let st = split_run(lines(content));
    let secs = if keeps(st.current) {
        st.sections.push(st.current)
    } else {
        st.sections
    };
    if secs.len() == 0 && trim(content).len() > 0 {
        seq![SectionView { heading_path: Seq::empty(), body: content }]
    } else {
        secs
    }
}

/// The levels of a heading stack run from 1 to 6 and strictly increase
/// (so the entry at index `k` has level at least `k + 1`).
pub open spec fn stack_ok(stack: Seq<(u8, Seq<char>)>) -> bool {
    &&& forall|i: int, j: int| 0 <= i < j < stack.len() ==> #[trigger] stack[i].0 < #[trigger] stack[j].0
    &&& forall|k: int| 0 <= k < stack.len() ==> k + 1 <= (#[trigger] stack[k]).0 <= 6
}

/// What holds between the lines of a split: a well-formed stack, the
/// current section's heading path read off the stack, and every finished
/// section kept, with at most six headings in its path.
pub open spec fn split_ok(st: SplitState) -> bool {
    &&& stack_ok(st.stack)
    &&& st.current.heading_path == stack_texts(st.stack)
    &&& forall|k: int| 0 <= k < st.sections.len() ==> keeps(#[trigger] st.sections[k]) && st.sections[k].heading_path.len() <= 6
}

/// Popping the entries of level `level` or deeper leaves a prefix of the
/// stack whose top is shallower than `level`.
proof fn lemma_pop_ge(stack: Seq<(u8, Seq<char>)>, level: u8) -> (m: int)
    ensures
        0 <= m <= stack.len(),
        pop_ge(stack, level) == stack.take(m),
        m > 0 ==> stack[m - 1].0 < level,
    decreases stack.len(),
{
    if stack.len() > 0 && stack.last().0 >= level {
        let m = lemma_pop_ge(stack.drop_last(), level);
        assert(stack.drop_last().take(m) == stack.take(m));
        m
    } else {
        assert(stack.take(stack.len() as int) == stack);
        stack.len() as int
    }
}

/// A well-formed stack holds at most six entries.
proof fn lemma_stack_len(stack: Seq<(u8, Seq<char>)>)
    requires
        stack_ok(stack),
    ensures
        stack.len() <= 6,
{
    if stack.len() > 0 {
        assert(stack.len() <= stack[stack.len() - 1].0);
    }
}

/// A heading line has a level from 1 to 6.
proof fn lemma_heading_level(line: Seq<char>)
    ensures
        heading_of(line) matches Some(h) ==> 1 <= h.0 <= 6,
{
}

/// One line keeps what holds between lines.
proof fn lemma_split_step_ok(st: SplitState, line: Seq<char>)
    requires
        split_ok(st),
    ensures
        split_ok(split_step(st, line)),
{
    if !is_fence_line(line) && !st.in_fence {
        if let Some(h) = heading_of(line) {
            lemma_heading_level(line);
            lemma_stack_len(st.stack);
            let m = lemma_pop_ge(st.stack, h.0);
            let popped = st.stack.take(m);
            let stack = popped.push(h);
            assert forall|i: int, j: int| 0 <= i < j < stack.len() implies #[trigger] stack[i].0
                < #[trigger] stack[j].0 by {
                if j < m {
                    assert(stack[i] == st.stack[i] && stack[j] == st.stack[j]);
                } else {
                    assert(stack[i] == st.stack[i]);
                    if i < m - 1 {
                        assert(st.stack[i].0 < st.stack[m - 1].0);
                    }
                }
            }
            assert forall|k: int| 0 <= k < stack.len() implies k + 1 <= (#[trigger] stack[k]).0 <= 6 by {
                if k < m {
                    assert(stack[k] == st.stack[k]);
                } else if m > 0 {
                    assert(m <= st.stack[m - 1].0);
                }
            }
            let next = split_step(st, line);
            assert(next.stack == stack);
            assert forall|k: int| 0 <= k < next.sections.len() implies keeps(#[trigger] next.sections[k])
                && next.sections[k].heading_path.len() <= 6 by {
                if k == st.sections.len() {
                    assert(next.sections[k] == st.current);
                } else {
                    assert(next.sections[k] == st.sections[k]);
                }
            }
        }
    }
}

/// What holds between lines holds after any lines.
proof fn lemma_split_run_ok(ls: Seq<Seq<char>>)
    ensures
        split_ok(split_run(ls)),
    decreases ls.len(),
{
    if ls.len() == 0 {
        assert(stack_texts(Seq::<(u8, Seq<char>)>::empty()) =~= Seq::<Seq<char>>::empty());
    } else {
        lemma_split_run_ok(ls.drop_last());
        lemma_split_step_ok(split_run(ls.drop_last()), ls.last());
    }
}

/// Every section of markdown content has text or a heading above it, and
/// its heading path holds at most six headings, one per level.
pub proof fn lemma_sections_shape(content: Seq<char>)
    ensures
        forall|k: int| 0 <= k < sections_of(content).len() ==> keeps(#[trigger] sections_of(content)[k])
            && sections_of(content)[k].heading_path.len() <= 6,
{
    let st = split_run(lines(content));
    lemma_split_run_ok(lines(content));
    lemma_stack_len(st.stack);
    let secs = if keeps(st.current) {
        st.sections.push(st.current)
    } else {
        st.sections
    };
    assert forall|k: int| 0 <= k < secs.len() implies keeps(#[trigger] secs[k]) && secs[k].heading_path.len() <= 6 by {
        if k == st.sections.len() {
            assert(secs[k] == st.current);
        } else {
            assert(secs[k] == st.sections[k]);
        }
    }
}

/// The heading texts of a stack, as strings.
fn stack_path(stack: &Vec<(u8, String)>) -> (r: Vec<String>)
    ensures
        strs(r@) == stack_texts(stack_views(stack@)),
{
    let mut r: Vec<String> = Vec::new();
    let mut i: usize = 0;
    while i < stack.len()
        invariant
            i <= stack@.len(),
            strs(r@) == stack_texts(stack_views(stack@)).take(i as int),
        decreases stack@.len() - i,
    {
        let ghost before = strs(r@);
        r.push(stack[i].1.clone());
        assert(strs(r@) =~= before.push(stack@[i as int].1@));
        assert(stack_texts(stack_views(stack@)).take(i + 1) =~= stack_texts(stack_views(stack@)).take(
            i as int,
        ).push(stack@[i as int].1@));
        i = i + 1;
    }
    assert(stack_texts(stack_views(stack@)).take(stack@.len() as int) =~= stack_texts(stack_views(stack@)));
    r
}

/// The views of a heading stack.
pub open spec fn stack_views(v: Seq<(u8, String)>) -> Seq<(u8, Seq<char>)> {
    v.map_values(|e: (u8, String)| (e.0, e.1@))
}

/// Split markdown content into sections by heading.
#[verifier::rlimit(40)]
pub fn split_markdown_sections(content: &str) -> (r: Vec<Section>)
    ensures
        section_views(r@) == sections_of(content@),
{
    let cc = chars_of(content);
    let ls = lines_of(cc.as_slice());
    let ghost lv = lines(content@);
    let mut sections: Vec<Section> = Vec::new();
    let mut cur_path: Vec<String> = Vec::new();
    let mut cur_body: Vec<char> = Vec::new();
    let mut stack: Vec<(u8, String)> = Vec::new();
    let mut in_fence = false;
    let mut fence: Vec<char> = Vec::new();
    let ticks = chars_of("```");
    let tildes = chars_of("~~~");
    proof {
        reveal_strlit("```");
        reveal_strlit("~~~");
    }
    let mut i: usize = 0;
    assert(lv.take(0) =~= Seq::<Seq<char>>::empty());
    assert(section_views(sections@) =~= Seq::<SectionView>::empty());
    assert(strs(cur_path@) =~= Seq::<Seq<char>>::empty());
    assert(stack_views(stack@) =~= Seq::<(u8, Seq<char>)>::empty());
    while i < ls.len()
        invariant
            i <= ls@.len(),
            ls@.len() == lv.len(),
            lv == lines(content@),
            forall|k: int| 0 <= k < ls@.len() ==> (#[trigger] ls@[k])@ == lv[k],
            ticks@ == "```"@,
            tildes@ == "~~~"@,
            ticks@.len() == 3,
            tildes@.len() == 3,
            split_run(lv.take(i as int)) == (SplitState {
                sections: section_views(sections@),
                current: SectionView { heading_path: strs(cur_path@), body: cur_body@ },
                stack: stack_views(stack@),
                in_fence,
                fence: fence@,
            }),
        decreases ls@.len() - i,
    {
        let line = &ls[i];
        let ghost lnv = lv[i as int];
        assert(line@ == lnv);
        let ghost st = split_run(lv.take(i as int));
        assert(lv.take(i + 1).drop_last() == lv.take(i as int));
        assert(lv.take(i + 1).last() == lnv);
        let t = trim_start_chars(line.as_slice());
        assert(split_run(lv.take(i + 1)) == split_step(st, lnv));
        if starts_with_chars(t.as_slice(), ticks.as_slice()) || starts_with_chars(t.as_slice(), tildes.as_slice()) {
            let mut marker: Vec<char> = Vec::new();
            marker.push(t[0]);
            marker.push(t[1]);
            marker.push(t[2]);
            assert(marker@ == t@.take(3));
            if !in_fence {
                in_fence = true;
                fence = marker;
            } else if crate::text::eq_chars(marker.as_slice(), fence.as_slice()) {
                in_fence = false;
                fence = Vec::new();
            }
            push_chars(&mut cur_body, line.as_slice());
            cur_body.push('\n');
            assert(is_fence_line(lnv));
            assert(cur_body@ =~= st.current.body + lnv + seq!['\n']);
        } else if in_fence {
            push_chars(&mut cur_body, line.as_slice());
            cur_body.push('\n');
            assert(!is_fence_line(lnv));
            assert(cur_body@ =~= st.current.body + lnv + seq!['\n']);
        } else {
            assert(!is_fence_line(lnv));
            let line_str = string_of(line.as_slice());
            match parse_heading_line(line_str.as_str()) {
                Some((level, text)) => {
                    let body_str = string_of(cur_body.as_slice());
                    let trimmed_empty = trim_chars(cur_body.as_slice()).len() == 0;
                    if !trimmed_empty || cur_path.len() > 0 {
                        let ghost before = section_views(sections@);
                        sections.push(Section { heading_path: cur_path, body: body_str });
                        assert(section_views(sections@) =~= before.push(st.current));
                    }
                    let ghost old_stack = stack_views(stack@);
                    while stack.len() > 0 && stack[stack.len() - 1].0 >= level
                        invariant
                            pop_ge(stack_views(stack@), level) == pop_ge(old_stack, level),
                        decreases stack@.len(),
                    {
                        let ghost sv = stack_views(stack@);
                        stack.pop();
                        assert(stack_views(stack@) =~= sv.drop_last());
                    }
                    let ghost popped = stack_views(stack@);
                    assert(pop_ge(popped, level) == popped);
                    stack.push((level, text));
                    assert(stack_views(stack@) =~= pop_ge(old_stack, level).push((level, text@)));
                    cur_path = stack_path(&stack);
                    cur_body = Vec::new();
                    assert(cur_body@ =~= Seq::<char>::empty());
                    assert(heading_of(lnv) == Some((level, text@)));
                },
                None => {
                    push_chars(&mut cur_body, line.as_slice());
                    cur_body.push('\n');
                    assert(heading_of(lnv) is None);
                    assert(cur_body@ =~= st.current.body + lnv + seq!['\n']);
                },
            }
        }
        assert(split_run(lv.take(i + 1)) =~= (SplitState {
            sections: section_views(sections@),
            current: SectionView { heading_path: strs(cur_path@), body: cur_body@ },
            stack: stack_views(stack@),
            in_fence,
            fence: fence@,
        }));
        i = i + 1;
    }
    assert(lv.take(lv.len() as int) == lv);
    let ghost st = split_run(lv);
    let trimmed_empty = trim_chars(cur_body.as_slice()).len() == 0;
    if !trimmed_empty || cur_path.len() > 0 {
        let ghost before = section_views(sections@);
        let body_str = string_of(cur_body.as_slice());
        sections.push(Section { heading_path: cur_path, body: body_str });
        assert(section_views(sections@) =~= before.push(st.current));
    }
    if sections.len() == 0 && trim_chars(cc.as_slice()).len() > 0 {
        let mut only: Vec<Section> = Vec::new();
        only.push(Section { heading_path: Vec::new(), body: content.to_owned() });
        assert(section_views(only@) =~= seq![SectionView { heading_path: Seq::empty(), body: content@ }]);
        return only;
    }
    sections
}

/// The prefix of every chunk of a section: the title, then the heading path
/// when headings are included and there are some.
pub open spec fn content_prefix(title: Seq<char>, heading_path: Seq<Seq<char>>, include_headings: bool) -> Seq<char> {
    if include_headings && heading_path.len() > 0 {
        title + ". "@ + "Section: "@ + join(heading_path, " > "@) + ". "@
    } else {
        title + ". "@
    }
}

/// Build the prefix of every chunk of a section.
pub fn build_content_prefix(title: &str, heading_path: &[String], include_headings: bool) -> (r: String)
    ensures
        r@ == content_prefix(title@, strs(heading_path@), include_headings),
{
    let mut prefix = chars_of(title);
    push_chars(&mut prefix, chars_of(". ").as_slice());
    if include_headings && heading_path.len() > 0 {
        push_chars(&mut prefix, chars_of("Section: ").as_slice());
        let joined = join_strs(heading_path, " > ");
        push_chars(&mut prefix, chars_of(joined.as_str()).as_slice());
        push_chars(&mut prefix, chars_of(". ").as_slice());
    }
    string_of(prefix.as_slice())
}

} // verus!
