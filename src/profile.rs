//! Upserting the multi-monitor directives of a connection profile.
//!
//! A profile is line-oriented text of `key:type:value` directives. A line
//! holds a directive when it starts with the directive's key, compared as a
//! case-insensitive pattern in which a space stands for any one white-space
//! character of the line. Upserting rewrites the value of every such line,
//! or appends a line when there is none.
use vstd::prelude::*;
use crate::text::{chars_of, decimal, push_decimal, string_of};

verus! {

/// The directives that a profile is patched with.
#[derive(Clone, Copy, Debug, PartialEq, Eq, Structural)]
pub enum Directive {
    /// `use multimon:i:`, the multi-monitor switch.
    UseMultimon,
    /// `selectedmonitors:s:`, the list of monitor ids.
    SelectedMonitors,
}

impl Directive {
    /// The key in lower case; a space stands for any white-space character.
    pub open spec fn lower(self) -> Seq<char> {
        match self {
            Directive::UseMultimon => seq![
                'u', 's', 'e', ' ', 'm', 'u', 'l', 't', 'i', 'm', 'o', 'n', ':', 'i', ':',
            ],
            Directive::SelectedMonitors => seq![
                's', 'e', 'l', 'e', 'c', 't', 'e', 'd', 'm', 'o', 'n', 'i', 't', 'o', 'r', 's',
                ':', 's', ':',
            ],
        }
    }

    /// The key in upper case, position for position.
    pub open spec fn upper(self) -> Seq<char> {
        match self {
            Directive::UseMultimon => seq![
                'U', 'S', 'E', ' ', 'M', 'U', 'L', 'T', 'I', 'M', 'O', 'N', ':', 'I', ':',
            ],
            Directive::SelectedMonitors => seq![
                'S', 'E', 'L', 'E', 'C', 'T', 'E', 'D', 'M', 'O', 'N', 'I', 'T', 'O', 'R', 'S',
                ':', 'S', ':',
            ],
        }
    }
}

/// White space other than a line feed, as Unicode defines it.
pub open spec fn is_blank(c: char) -> bool {
    ||| c == ' '
    ||| c == '\t'
    ||| c == '\r'
    ||| c == '\u{b}'
    ||| c == '\u{c}'
    ||| c == '\u{85}'
    ||| c == '\u{a0}'
    ||| c == '\u{1680}'
    ||| c == '\u{2000}'
    ||| c == '\u{2001}'
    ||| c == '\u{2002}'
    ||| c == '\u{2003}'
    ||| c == '\u{2004}'
    ||| c == '\u{2005}'
    ||| c == '\u{2006}'
    ||| c == '\u{2007}'
    ||| c == '\u{2008}'
    ||| c == '\u{2009}'
    ||| c == '\u{200a}'
    ||| c == '\u{2028}'
    ||| c == '\u{2029}'
    ||| c == '\u{202f}'
    ||| c == '\u{205f}'
    ||| c == '\u{3000}'
}

/// Whether `c` stands where the key holds `lo` (upper case `up`). Letters
/// compare without regard to case, under Unicode's simple case folding.
pub open spec fn key_char_matches(c: char, lo: char, up: char) -> bool {
    if lo == ' ' {
        is_blank(c)
    } else {
        c == lo || c == up || (lo == 's' && c == '\u{17f}') || (lo == 'k' && c == '\u{212a}')
    }
}

/// Whether `line` starts with the key of `d`.
pub open spec fn is_directive(line: Seq<char>, d: Directive) -> bool {
    &&& line.len() >= d.lower().len()
    &&& forall|i: int|
        0 <= i < d.lower().len() ==> #[trigger] key_char_matches(
            line[i],
            d.lower()[i],
            d.upper()[i],
        )
}

/// The lines of `t`, split at each line feed; `k` line feeds make `k + 1` lines.
pub open spec fn split_lines(t: Seq<char>) -> Seq<Seq<char>>
    decreases t.len(),
{
    if t.len() == 0 {
        seq![Seq::<char>::empty()]
    } else if t.last() == '\n' {
        split_lines(t.drop_last()).push(Seq::<char>::empty())
    } else {
        let ls = split_lines(t.drop_last());
        ls.update(ls.len() - 1, ls.last().push(t.last()))
    }
}

/// The lines `ls` joined with line feeds.
pub open spec fn join_lines(ls: Seq<Seq<char>>) -> Seq<char>
    decreases ls.len(),
{
    if ls.len() == 0 {
        Seq::<char>::empty()
    } else if ls.len() == 1 {
        ls[0]
    } else {
        join_lines(ls.drop_last()) + seq!['\n'] + ls.last()
    }
}

/// `line`, a directive of kind `d`, with its value set to `value`.
pub open spec fn set_value(line: Seq<char>, d: Directive, value: Seq<char>) -> Seq<char> {
    line.take(d.lower().len() as int) + value
}

/// Sets the value of every directive line of kind `d` to `value`; where
/// there is none, appends one line that holds the key and the value.
pub open spec fn upsert_lines(ls: Seq<Seq<char>>, d: Directive, value: Seq<char>) -> Seq<
    Seq<char>,
> {
    if exists|k: int| 0 <= k < ls.len() && is_directive(#[trigger] ls[k], d) {
        ls.map_values(
            |l: Seq<char>|
                if is_directive(l, d) {
                    set_value(l, d, value)
                } else {
                    l
                },
        )
    } else {
        ls.push(d.lower() + value)
    }
}

/// The ids written in decimal and joined by single commas.
pub open spec fn id_list(ids: Seq<u32>) -> Seq<char>
    decreases ids.len(),
{
    if ids.len() == 0 {
        Seq::<char>::empty()
    } else if ids.len() == 1 {
        decimal(ids[0] as nat)
    } else {
        id_list(ids.drop_last()) + seq![','] + decimal(ids.last() as nat)
    }
}

/// The lines of a profile after both directives are upserted: the
/// multi-monitor switch turned on, then the selected ids.
pub open spec fn profile_lines(ls: Seq<Seq<char>>, ids: Seq<u32>) -> Seq<Seq<char>> {
    upsert_lines(upsert_lines(ls, Directive::UseMultimon, seq!['1']), Directive::SelectedMonitors, id_list(ids))
}

/// The profile text `text` patched for the selected ids `ids`.
pub open spec fn patched_profile(text: Seq<char>, ids: Seq<u32>) -> Seq<char> {
    join_lines(profile_lines(split_lines(text), ids))
}

/// The character sequences that the vectors `ls` hold.
pub open spec fn views(ls: Seq<Vec<char>>) -> Seq<Seq<char>> {
    ls.map_values(|l: Vec<char>| l@)
}

fn blank(c: char) -> (r: bool)
    ensures
        r == is_blank(c),
{
    c == ' ' || c == '\t' || c == '\r' || c == '\u{b}' || c == '\u{c}' || c == '\u{85}' || c
        == '\u{a0}' || c == '\u{1680}' || c == '\u{2000}' || c == '\u{2001}' || c == '\u{2002}'
        || c == '\u{2003}' || c == '\u{2004}' || c == '\u{2005}' || c == '\u{2006}' || c
        == '\u{2007}' || c == '\u{2008}' || c == '\u{2009}' || c == '\u{200a}' || c == '\u{2028}'
        || c == '\u{2029}' || c == '\u{202f}' || c == '\u{205f}' || c == '\u{3000}'
}

fn char_matches(c: char, lo: char, up: char) -> (r: bool)
    ensures
        r == key_char_matches(c, lo, up),
{
    if lo == ' ' {
        blank(c)
    } else {
        c == lo || c == up || (lo == 's' && c == '\u{17f}') || (lo == 'k' && c == '\u{212a}')
    }
}

/// The key of `d`, in lower case and in upper case.
fn key_of(d: Directive) -> (r: (Vec<char>, Vec<char>))
    ensures
        r.0@ == d.lower(),
        r.1@ == d.upper(),
{
    match d {
        Directive::UseMultimon => {
            let lo = chars_of("use multimon:i:");
            let up = chars_of("USE MULTIMON:I:");
            proof {
                reveal_strlit("use multimon:i:");
                reveal_strlit("USE MULTIMON:I:");
            }
            assert(lo@ =~= d.lower());
            assert(up@ =~= d.upper());
            (lo, up)
        },
        Directive::SelectedMonitors => {
            let lo = chars_of("selectedmonitors:s:");
            let up = chars_of("SELECTEDMONITORS:S:");
            proof {
                reveal_strlit("selectedmonitors:s:");
                reveal_strlit("SELECTEDMONITORS:S:");
            }
            assert(lo@ =~= d.lower());
            assert(up@ =~= d.upper());
            (lo, up)
        },
    }
}

fn line_is_directive(line: &Vec<char>, d: Directive, lo: &Vec<char>, up: &Vec<char>) -> (r: bool)
    requires
        lo@ == d.lower(),
        up@ == d.upper(),
    ensures
        r == is_directive(line@, d),
{
    if line.len() < lo.len() {
        return false;
    }
    let mut i: usize = 0;
    while i < lo.len()
        invariant
            lo@ == d.lower(),
            up@ == d.upper(),
            lo@.len() == up@.len(),
            line@.len() >= lo@.len(),
            i <= lo@.len(),
            forall|j: int| 0 <= j < i ==> #[trigger] key_char_matches(line@[j], lo@[j], up@[j]),
        decreases lo@.len() - i,
    {
        if !char_matches(line[i], lo[i], up[i]) {
            return false;
        }
        i = i + 1;
    }
    true
}

/// Appends `src[from..to]` to `out`.
fn append_range(out: &mut Vec<char>, src: &Vec<char>, from: usize, to: usize)
    requires
        from <= to <= src@.len(),
    ensures
        final(out)@ == old(out)@ + src@.subrange(from as int, to as int),
{
    let mut i: usize = from;
    while i < to
        invariant
            from <= i <= to <= src@.len(),
            out@ == old(out)@ + src@.subrange(from as int, i as int),
        decreases to - i,
    {
        out.push(src[i]);
        i = i + 1;
        assert(out@ =~= old(out)@ + src@.subrange(from as int, i as int));
    }
}

fn split_into_lines(t: &Vec<char>) -> (r: Vec<Vec<char>>)
    ensures
        views(r@) == split_lines(t@),
{
    let mut r: Vec<Vec<char>> = Vec::new();
    let mut cur: Vec<char> = Vec::new();
    let mut i: usize = 0;
    assert(t@.take(0) =~= Seq::<char>::empty());
    assert(views(r@).push(cur@) =~= split_lines(t@.take(0)));
    while i < t.len()
        invariant
            i <= t@.len(),
            views(r@).push(cur@) == split_lines(t@.take(i as int)),
        decreases t@.len() - i,
    {
        let c = t[i];
        assert(t@.take(i + 1).drop_last() =~= t@.take(i as int));
        if c == '\n' {
            r.push(cur);
            cur = Vec::new();
            assert(views(r@).push(cur@) =~= split_lines(t@.take(i + 1)));
        } else {
            cur.push(c);
            assert(views(r@).push(cur@) =~= split_lines(t@.take(i + 1)));
        }
        i = i + 1;
    }
    assert(t@.take(i as int) =~= t@);
    r.push(cur);
    assert(views(r@) =~= split_lines(t@));
    r
}

fn join_all(ls: &Vec<Vec<char>>) -> (r: Vec<char>)
    ensures
        r@ == join_lines(views(ls@)),
{
    let mut r: Vec<char> = Vec::new();
    let mut k: usize = 0;
    assert(views(ls@).take(0) =~= Seq::<Seq<char>>::empty());
    while k < ls.len()
        invariant
            k <= ls@.len(),
            r@ == join_lines(views(ls@).take(k as int)),
        decreases ls@.len() - k,
    {
        assert(views(ls@).take(k + 1).drop_last() =~= views(ls@).take(k as int));
        if k > 0 {
            r.push('\n');
        }
        let n = ls[k].len();
        append_range(&mut r, &ls[k], 0, n);
        assert(ls[k as int]@.subrange(0, n as int) =~= ls[k as int]@);
        assert(r@ =~= join_lines(views(ls@).take(k + 1)));
        k = k + 1;
    }
    assert(views(ls@).take(k as int) =~= views(ls@));
    r
}

/// The first line of `lines` that holds the directive `d`.
fn find_directive(lines: &Vec<Vec<char>>, d: Directive, lo: &Vec<char>, up: &Vec<char>) -> (r:
    Option<usize>)
    requires
        lo@ == d.lower(),
        up@ == d.upper(),
    ensures
        r matches Some(k) ==> k < lines@.len() && is_directive(views(lines@)[k as int], d),
        r is None ==> forall|j: int|
            0 <= j < lines@.len() ==> !is_directive(#[trigger] views(lines@)[j], d),
{
    let mut k: usize = 0;
    while k < lines.len()
        invariant
            lo@ == d.lower(),
            up@ == d.upper(),
            k <= lines@.len(),
            forall|j: int| 0 <= j < k ==> !is_directive(#[trigger] views(lines@)[j], d),
        decreases lines@.len() - k,
    {
        if line_is_directive(&lines[k], d, lo, up) {
            return Some(k);
        }
        k = k + 1;
    }
    None
}

/// Upserts the directive `d` with the value `value` into `lines`.
fn upsert(lines: &mut Vec<Vec<char>>, d: Directive, value: &Vec<char>)
    ensures
        views(final(lines)@) == upsert_lines(views(old(lines)@), d, value@),
{
    let (lo, up) = key_of(d);
    let ghost old_ls = views(lines@);
    let found = find_directive(lines, d, &lo, &up).is_some();
    if found {
        let n = lo.len();
        let mut k: usize = 0;
        while k < lines.len()
            invariant
                lo@ == d.lower(),
                up@ == d.upper(),
                n == d.lower().len(),
                k <= lines@.len(),
                lines@.len() == old_ls.len(),
                forall|j: int|
                    0 <= j < k ==> #[trigger] lines@[j]@ == (if is_directive(old_ls[j], d) {
                        set_value(old_ls[j], d, value@)
                    } else {
                        old_ls[j]
                    }),
                forall|j: int| k <= j < lines@.len() ==> #[trigger] lines@[j]@ == old_ls[j],
            decreases lines@.len() - k,
        {
            if line_is_directive(&lines[k], d, &lo, &up) {
                let mut nl: Vec<char> = Vec::new();
                append_range(&mut nl, &lines[k], 0, n);
                let vn = value.len();
                append_range(&mut nl, value, 0, vn);
                assert(value@.subrange(0, vn as int) =~= value@);
                assert(nl@ =~= set_value(old_ls[k as int], d, value@));
                let ghost before = lines@;
                lines[k] = nl;
                assert(lines@ == before.update(k as int, nl));
            }
            k = k + 1;
        }
        assert(views(lines@) =~= upsert_lines(old_ls, d, value@));
    } else {
        let mut nl: Vec<char> = Vec::new();
        let ln = lo.len();
        append_range(&mut nl, &lo, 0, ln);
        let vn = value.len();
        append_range(&mut nl, value, 0, vn);
        assert(lo@.subrange(0, ln as int) =~= lo@);
        assert(value@.subrange(0, vn as int) =~= value@);
        lines.push(nl);
        assert(views(lines@) =~= upsert_lines(old_ls, d, value@));
    }
}

/// The ids in decimal, joined by single commas, with no separator at the end.
pub fn join_ids(ids: &[u32]) -> (r: Vec<char>)
    ensures
        r@ == id_list(ids@),
{
    let mut r: Vec<char> = Vec::new();
    let mut i: usize = 0;
    assert(ids@.take(0) =~= Seq::<u32>::empty());
    while i < ids.len()
        invariant
            i <= ids@.len(),
            r@ == id_list(ids@.take(i as int)),
        decreases ids@.len() - i,
    {
        assert(ids@.take(i + 1).drop_last() =~= ids@.take(i as int));
        if i > 0 {
            r.push(',');
        }
        push_decimal(&mut r, ids[i] as u64);
        assert(r@ =~= id_list(ids@.take(i + 1)));
        i = i + 1;
    }
    assert(ids@.take(i as int) =~= ids@);
    r
}

/// Patches a connection profile for a session on the selected monitors.
///
/// The multi-monitor switch is set to `1` and the selected-monitors list to
/// `selected`, joined by commas, in every line that holds either directive;
/// a directive that no line holds is appended on a line of its own.
pub fn patch_profile(text: &str, selected: &[u32]) -> (r: String)
    ensures
        r@ == patched_profile(text@, selected@),
{
    let chars = chars_of(text);
    let mut lines = split_into_lines(&chars);
    let mut on: Vec<char> = Vec::new();
    on.push('1');
    assert(on@ =~= seq!['1']);
    upsert(&mut lines, Directive::UseMultimon, &on);
    let ids = join_ids(selected);
    upsert(&mut lines, Directive::SelectedMonitors, &ids);
    let out = join_all(&lines);
    string_of(&out)
}

/// No line of `ls` holds a line feed.
pub open spec fn single_lines(ls: Seq<Seq<char>>) -> bool {
    forall|i: int, j: int| 0 <= i < ls.len() && 0 <= j < ls[i].len() ==> #[trigger] ls[i][j] != '\n'
}

/// A line that holds neither directive.
pub open spec fn is_other_line(l: Seq<char>) -> bool {
    !is_directive(l, Directive::UseMultimon) && !is_directive(l, Directive::SelectedMonitors)
}

/// Some line of `ls` holds `d`, and every such line already has the value `v`.
pub open spec fn settled(ls: Seq<Seq<char>>, d: Directive, v: Seq<char>) -> bool {
    &&& exists|k: int| 0 <= k < ls.len() && is_directive(#[trigger] ls[k], d)
    &&& forall|k: int| 0 <= k < ls.len() && is_directive(#[trigger] ls[k], d) ==> ls[k] == set_value(ls[k], d, v)
}

proof fn lemma_decimal_digits(n: nat)
    ensures
        forall|j: int| 0 <= j < decimal(n).len() ==> #[trigger] decimal(n)[j] != '\n' && decimal(n)[j] != ',',
    decreases n,
{
    if n >= 10 {
        lemma_decimal_digits(n / 10);
        let a = decimal(n / 10);
        assert forall|j: int| 0 <= j < decimal(n).len() implies #[trigger] decimal(n)[j] != '\n' && decimal(n)[j] != ',' by {
            if j < a.len() {
                assert(decimal(n)[j] == a[j]);
            }
        }
    }
}

proof fn lemma_id_list_single(ids: Seq<u32>)
    ensures
        forall|j: int| 0 <= j < id_list(ids).len() ==> #[trigger] id_list(ids)[j] != '\n',
    decreases ids.len(),
{
    if ids.len() == 1 {
        lemma_decimal_digits(ids[0] as nat);
    } else if ids.len() > 1 {
        lemma_id_list_single(ids.drop_last());
        lemma_decimal_digits(ids.last() as nat);
        let a = id_list(ids.drop_last());
        let b = decimal(ids.last() as nat);
        assert forall|j: int| 0 <= j < id_list(ids).len() implies #[trigger] id_list(ids)[j] != '\n' by {
            if j < a.len() {
                assert(id_list(ids)[j] == a[j]);
            } else if j > a.len() {
                assert(id_list(ids)[j] == b[j - a.len() - 1]);
            }
        }
    }
}

proof fn lemma_split_single(t: Seq<char>)
    ensures
        split_lines(t).len() >= 1,
        single_lines(split_lines(t)),
    decreases t.len(),
{
    if t.len() > 0 {
        lemma_split_single(t.drop_last());
        let ls = split_lines(t.drop_last());
        if t.last() != '\n' {
            let l = ls.last().push(t.last());
            assert forall|i: int, j: int| 0 <= i < split_lines(t).len() && 0 <= j < split_lines(t)[i].len() implies #[trigger] split_lines(t)[i][j] != '\n' by {
                if i == ls.len() - 1 {
                    assert(split_lines(t)[i] == l);
                    if j < l.len() - 1 {
                        assert(l[j] == ls.last()[j]);
                    }
                } else {
                    assert(split_lines(t)[i] == ls[i]);
                }
            }
        } else {
            assert forall|i: int, j: int| 0 <= i < split_lines(t).len() && 0 <= j < split_lines(t)[i].len() implies #[trigger] split_lines(t)[i][j] != '\n' by {
                if i < ls.len() {
                    assert(split_lines(t)[i] == ls[i]);
                }
            }
        }
    }
}

proof fn lemma_split_line(l: Seq<char>)
    requires
        forall|j: int| 0 <= j < l.len() ==> #[trigger] l[j] != '\n',
    ensures
        split_lines(l) == seq![l],
    decreases l.len(),
{
    if l.len() > 0 {
        lemma_split_line(l.drop_last());
        assert(l.last() != '\n');
        assert(l.drop_last().push(l.last()) =~= l);
        assert(split_lines(l) =~= seq![l]);
    } else {
        assert(l =~= Seq::<char>::empty());
        assert(split_lines(l) =~= seq![l]);
    }
}

proof fn lemma_split_append(t: Seq<char>, l: Seq<char>)
    requires
        forall|j: int| 0 <= j < l.len() ==> #[trigger] l[j] != '\n',
    ensures
        split_lines(t + seq!['\n'] + l) == split_lines(t).push(l),
    decreases l.len(),
{
    let w = t + seq!['\n'] + l;
    if l.len() == 0 {
        assert(w.drop_last() =~= t);
        assert(w.last() == '\n');
        assert(l =~= Seq::<char>::empty());
        assert(split_lines(w) =~= split_lines(t).push(l));
    } else {
        lemma_split_append(t, l.drop_last());
        assert(w.drop_last() =~= t + seq!['\n'] + l.drop_last());
        assert(w.last() == l.last());
        assert(l.last() != '\n');
        assert(l.drop_last().push(l.last()) =~= l);
        assert(split_lines(w) =~= split_lines(t).push(l));
    }
}

/// Splitting joined lines gives the lines back.
proof fn lemma_split_join(ls: Seq<Seq<char>>)
    requires
        ls.len() >= 1,
        single_lines(ls),
    ensures
        split_lines(join_lines(ls)) == ls,
    decreases ls.len(),
{
    if ls.len() == 1 {
        assert forall|j: int| 0 <= j < ls[0].len() implies #[trigger] ls[0][j] != '\n' by {
            assert(ls[0][j] != '\n');
        }
        lemma_split_line(ls[0]);
        assert(split_lines(join_lines(ls)) =~= ls);
    } else {
        let init = ls.drop_last();
        assert forall|i: int, j: int| 0 <= i < init.len() && 0 <= j < init[i].len() implies #[trigger] init[i][j] != '\n' by {
            assert(init[i] == ls[i]);
            assert(ls[i][j] != '\n');
        }
        lemma_split_join(init);
        assert forall|j: int| 0 <= j < ls.last().len() implies #[trigger] ls.last()[j] != '\n' by {
            assert(ls[ls.len() - 1][j] != '\n');
        }
        lemma_split_append(join_lines(init), ls.last());
        assert(split_lines(join_lines(ls)) =~= ls);
    }
}

proof fn lemma_key_is_directive(d: Directive, v: Seq<char>)
    ensures
        is_directive(d.lower() + v, d),
        set_value(d.lower() + v, d, v) == d.lower() + v,
{
    let l = d.lower() + v;
    assert forall|i: int| 0 <= i < d.lower().len() implies #[trigger] key_char_matches(l[i], d.lower()[i], d.upper()[i]) by {
        assert(l[i] == d.lower()[i]);
    }
    assert(l.take(d.lower().len() as int) =~= d.lower());
}

proof fn lemma_set_value_settles(l: Seq<char>, d: Directive, v: Seq<char>)
    requires
        is_directive(l, d),
    ensures
        is_directive(set_value(l, d, v), d),
        set_value(set_value(l, d, v), d, v) == set_value(l, d, v),
        set_value(l, d, v)[0] == l[0],
{
    let n = d.lower().len() as int;
    let r = set_value(l, d, v);
    assert forall|i: int| 0 <= i < n implies #[trigger] key_char_matches(r[i], d.lower()[i], d.upper()[i]) by {
        assert(r[i] == l[i]);
    }
    assert(r.take(n) =~= l.take(n));
}

/// A line never holds both directives: their keys differ in the first letter.
proof fn lemma_directives_exclusive(l: Seq<char>)
    ensures
        !(is_directive(l, Directive::UseMultimon) && is_directive(l, Directive::SelectedMonitors)),
        is_directive(l, Directive::SelectedMonitors) ==> l.len() > 0 && (l[0] == 's' || l[0] == 'S' || l[0] == '\u{17f}'),
{
    let m = Directive::UseMultimon;
    let s = Directive::SelectedMonitors;
    if is_directive(l, s) {
        assert(key_char_matches(l[0], s.lower()[0], s.upper()[0]));
    }
    if is_directive(l, m) && is_directive(l, s) {
        assert(key_char_matches(l[0], m.lower()[0], m.upper()[0]));
        assert(key_char_matches(l[0], s.lower()[0], s.upper()[0]));
    }
}

proof fn lemma_not_multimon(l: Seq<char>)
    requires
        l.len() > 0,
        l[0] == 's' || l[0] == 'S' || l[0] == '\u{17f}',
    ensures
        !is_directive(l, Directive::UseMultimon),
{
    let m = Directive::UseMultimon;
    if is_directive(l, m) {
        assert(key_char_matches(l[0], m.lower()[0], m.upper()[0]));
    }
}

proof fn lemma_upsert_settles(ls: Seq<Seq<char>>, d: Directive, v: Seq<char>)
    ensures
        settled(upsert_lines(ls, d, v), d, v),
{
    let r = upsert_lines(ls, d, v);
    if exists|k: int| 0 <= k < ls.len() && is_directive(#[trigger] ls[k], d) {
        let k0 = choose|k: int| 0 <= k < ls.len() && is_directive(#[trigger] ls[k], d);
        lemma_set_value_settles(ls[k0], d, v);
        assert(is_directive(r[k0], d));
        assert forall|k: int| 0 <= k < r.len() && is_directive(#[trigger] r[k], d) implies r[k] == set_value(r[k], d, v) by {
            if is_directive(ls[k], d) {
                lemma_set_value_settles(ls[k], d, v);
            }
        }
    } else {
        lemma_key_is_directive(d, v);
        assert(is_directive(r[ls.len() as int], d));
    }
}

proof fn lemma_upsert_settled(ls: Seq<Seq<char>>, d: Directive, v: Seq<char>)
    requires
        settled(ls, d, v),
    ensures
        upsert_lines(ls, d, v) == ls,
{
    assert(upsert_lines(ls, d, v) =~= ls);
}

proof fn lemma_upsert_single(ls: Seq<Seq<char>>, d: Directive, v: Seq<char>)
    requires
        ls.len() >= 1,
        single_lines(ls),
        forall|j: int| 0 <= j < v.len() ==> #[trigger] v[j] != '\n',
    ensures
        upsert_lines(ls, d, v).len() >= 1,
        single_lines(upsert_lines(ls, d, v)),
{
    let r = upsert_lines(ls, d, v);
    let n = d.lower().len() as int;
    assert(d.lower() =~= seq![
        'u', 's', 'e', ' ', 'm', 'u', 'l', 't', 'i', 'm', 'o', 'n', ':', 'i', ':',
    ] || d.lower() =~= seq![
        's', 'e', 'l', 'e', 'c', 't', 'e', 'd', 'm', 'o', 'n', 'i', 't', 'o', 'r', 's', ':', 's', ':',
    ]);
    assert forall|i: int, j: int| 0 <= i < r.len() && 0 <= j < r[i].len() implies #[trigger] r[i][j] != '\n' by {
        if i < ls.len() {
            if r[i] != ls[i] {
                assert(r[i] == set_value(ls[i], d, v));
                if j < n {
                    assert(r[i][j] == ls[i][j]);
                } else {
                    assert(r[i][j] == v[j - n]);
                }
            }
        } else {
            if j < n {
                assert(r[i][j] == d.lower()[j]);
            } else {
                assert(r[i][j] == v[j - n]);
            }
        }
    }
}

/// Upserting the selected ids leaves a settled multi-monitor switch settled.
proof fn lemma_selected_keeps_multimon(ls: Seq<Seq<char>>, v: Seq<char>)
    requires
        settled(ls, Directive::UseMultimon, seq!['1']),
    ensures
        settled(upsert_lines(ls, Directive::SelectedMonitors, v), Directive::UseMultimon, seq!['1']),
{
    let m = Directive::UseMultimon;
    let s = Directive::SelectedMonitors;
    let r = upsert_lines(ls, s, v);
    let k0 = choose|k: int| 0 <= k < ls.len() && is_directive(#[trigger] ls[k], m);
    lemma_directives_exclusive(ls[k0]);
    assert(r[k0] == ls[k0]);
    assert forall|k: int| 0 <= k < r.len() && is_directive(#[trigger] r[k], m) implies r[k] == set_value(r[k], m, seq!['1']) by {
        if k < ls.len() {
            lemma_directives_exclusive(ls[k]);
            if is_directive(ls[k], s) {
                lemma_set_value_settles(ls[k], s, v);
                lemma_not_multimon(r[k]);
            }
        } else {
            assert(r[k] == s.lower() + v);
            assert(r[k][0] == 's');
            lemma_not_multimon(r[k]);
        }
    }
}

/// Patching a profile a second time with the same ids changes nothing.
pub proof fn patch_is_idempotent(text: Seq<char>, ids: Seq<u32>)
    ensures
        patched_profile(patched_profile(text, ids), ids) == patched_profile(text, ids),
{
    let m = Directive::UseMultimon;
    let s = Directive::SelectedMonitors;
    let v = id_list(ids);
    let ls0 = split_lines(text);
    let ls1 = upsert_lines(ls0, m, seq!['1']);
    let ls2 = upsert_lines(ls1, s, v);
    lemma_split_single(text);
    lemma_id_list_single(ids);
    assert forall|j: int| 0 <= j < seq!['1'].len() implies #[trigger] seq!['1'][j] != '\n' by {}
    lemma_upsert_single(ls0, m, seq!['1']);
    lemma_upsert_single(ls1, s, v);
    lemma_split_join(ls2);
    lemma_upsert_settles(ls0, m, seq!['1']);
    lemma_selected_keeps_multimon(ls1, v);
    lemma_upsert_settles(ls1, s, v);
    lemma_upsert_settled(ls2, m, seq!['1']);
    lemma_upsert_settled(ls2, s, v);
}

proof fn lemma_upsert_keeps_others(ls: Seq<Seq<char>>, d: Directive, v: Seq<char>, p: spec_fn(Seq<char>) -> bool)
    requires
        forall|l: Seq<char>| #[trigger] p(l) ==> !is_directive(l, d),
    ensures
        upsert_lines(ls, d, v).filter(p) == ls.filter(p),
    decreases ls.len(),
{
    reveal(Seq::filter);
    if exists|k: int| 0 <= k < ls.len() && is_directive(#[trigger] ls[k], d) {
        lemma_map_keeps_others(ls, d, v, p);
    } else {
        lemma_key_is_directive(d, v);
        assert(ls.push(d.lower() + v).drop_last() =~= ls);
    }
}

proof fn lemma_map_keeps_others(ls: Seq<Seq<char>>, d: Directive, v: Seq<char>, p: spec_fn(Seq<char>) -> bool)
    requires
        forall|l: Seq<char>| #[trigger] p(l) ==> !is_directive(l, d),
    ensures
        ls.map_values(
            |l: Seq<char>|
                if is_directive(l, d) {
                    set_value(l, d, v)
                } else {
                    l
                },
        ).filter(p) == ls.filter(p),
    decreases ls.len(),
{
    reveal(Seq::filter);
    let f = |l: Seq<char>|
        if is_directive(l, d) {
            set_value(l, d, v)
        } else {
            l
        };
    if ls.len() > 0 {
        lemma_map_keeps_others(ls.drop_last(), d, v, p);
        assert(ls.map_values(f).drop_last() =~= ls.drop_last().map_values(f));
        if is_directive(ls.last(), d) {
            lemma_set_value_settles(ls.last(), d, v);
        }
    } else {
        assert(ls.map_values(f) =~= ls);
    }
}

/// Lines that hold neither directive come through a patch unchanged and in
/// their order.
pub proof fn patch_keeps_other_lines(text: Seq<char>, ids: Seq<u32>)
    ensures
        split_lines(patched_profile(text, ids)).filter(|l: Seq<char>| is_other_line(l))
            == split_lines(text).filter(|l: Seq<char>| is_other_line(l)),
{
    let m = Directive::UseMultimon;
    let s = Directive::SelectedMonitors;
    let v = id_list(ids);
    let p = |l: Seq<char>| is_other_line(l);
    let ls0 = split_lines(text);
    let ls1 = upsert_lines(ls0, m, seq!['1']);
    let ls2 = upsert_lines(ls1, s, v);
    lemma_split_single(text);
    lemma_id_list_single(ids);
    assert forall|j: int| 0 <= j < seq!['1'].len() implies #[trigger] seq!['1'][j] != '\n' by {}
    lemma_upsert_single(ls0, m, seq!['1']);
    lemma_upsert_single(ls1, s, v);
    lemma_split_join(ls2);
    lemma_upsert_keeps_others(ls0, m, seq!['1'], p);
    lemma_upsert_keeps_others(ls1, s, v, p);
}

} // verus!
