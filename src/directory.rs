use vstd::prelude::*;

use crate::text::{chars_of, first_index, id_of, lemma_first_index, parse_id};
use vstd::string::StrSliceExecFns;

verus! {

/// How the system instruction of a container's threads is found.
pub enum PromptRule {
    /// A fixed instruction.
    Literal(String),
    /// The text of the most recent message of another container.
    DynamicReference(u64),
}

/// The mathematical value of a [`PromptRule`].
pub enum RuleModel {
    Literal(Seq<char>),
    DynamicReference(u64),
}

impl View for PromptRule {
    type V = RuleModel;

    open spec fn view(&self) -> RuleModel {
        match self {
            PromptRule::Literal(t) => RuleModel::Literal(t@),
            PromptRule::DynamicReference(c) => RuleModel::DynamicReference(*c),
        }
    }
}

/// Why a prompt table was refused; `line` counts from 1.
#[derive(Debug, PartialEq, Eq, Structural)]
pub enum TableError {
    /// The line is neither blank, a comment, nor a well-formed rule.
    Malformed { line: usize },
    /// The line names a container that an earlier line already registered.
    DuplicateContainer { line: usize },
}

/// What one line of a prompt table says.
pub enum LineModel {
    Skip,
    Entry(u64, RuleModel),
    Bad,
}

/// One line of a prompt table. Empty lines and lines starting with `#` say
/// nothing. Otherwise a line is a container id, one space, and either
/// `= ` followed by a literal instruction, or the id of the container whose
/// latest message is the instruction.
pub open spec fn line_model(l: Seq<char>) -> LineModel {
    if l.len() == 0 || l[0] == '#' {
        LineModel::Skip
    } else {
        let k = first_index(l, ' ');
        let rest = l.skip((k + 1) as int);
        match id_of(l.take(k as int)) {
            None => LineModel::Bad,
            Some(container) => if k >= l.len() {
                LineModel::Bad
            } else if rest.len() >= 2 && rest[0] == '=' && rest[1] == ' ' {
                LineModel::Entry(container, RuleModel::Literal(rest.skip(2)))
            } else {
                match id_of(rest) {
                    Some(source) => LineModel::Entry(container, RuleModel::DynamicReference(source)),
                    None => LineModel::Bad,
                }
            },
        }
    }
}

/// The lines of `s`, split at each `'\n'`; text without one is a single line.
pub open spec fn lines_of(s: Seq<char>) -> Seq<Seq<char>>
    decreases s.len(),
{
    let k = first_index(s, '\n');
    if k >= s.len() {
        seq![s]
    } else {
        seq![s.take(k as int)] + lines_of(s.skip((k + 1) as int))
    }
}

/// Whether some entry of `es` is keyed by `k`.
pub open spec fn has_key(es: Seq<(u64, RuleModel)>, k: u64) -> bool {
    exists|i: int| 0 <= i < es.len() && (#[trigger] es[i]).0 == k
}

/// The rule registered for `k` in `es`, if any.
pub open spec fn rule_in(es: Seq<(u64, RuleModel)>, k: u64) -> Option<RuleModel> {
    if has_key(es, k) {
        Some(es[choose|i: int| 0 <= i < es.len() && (#[trigger] es[i]).0 == k].1)
    } else {
        None
    }
}

/// No container is registered twice.
pub open spec fn keys_unique(es: Seq<(u64, RuleModel)>) -> bool {
    forall|i: int, j: int|
        0 <= i < es.len() && 0 <= j < es.len() && (#[trigger] es[i]).0 == (#[trigger] es[j]).0
            ==> i == j
}

/// The entries read from `lines`, the first of which is line number `line`,
/// after the entries `acc` of the lines before.
pub open spec fn read_lines(lines: Seq<Seq<char>>, line: nat, acc: Seq<(u64, RuleModel)>) -> Result<
    Seq<(u64, RuleModel)>,
    TableError,
>
    decreases lines.len(),
{
    if lines.len() == 0 {
        Ok(acc)
    } else {
        match line_model(lines[0]) {
            LineModel::Skip => read_lines(lines.drop_first(), line + 1, acc),
            LineModel::Bad => Err(TableError::Malformed { line: line as usize }),
            LineModel::Entry(k, r) => if has_key(acc, k) {
                Err(TableError::DuplicateContainer { line: line as usize })
            } else {
                read_lines(lines.drop_first(), line + 1, acc.push((k, r)))
            },
        }
    }
}

/// The entries of a whole prompt table, in the order of its lines.
pub open spec fn table_entries(s: Seq<char>) -> Result<Seq<(u64, RuleModel)>, TableError> {
    read_lines(lines_of(s), 1, Seq::empty())
}

/// Maps each container to the rule that gives its threads their instruction.
pub struct PromptDirectory {
    entries: Vec<(u64, PromptRule)>,
}

impl View for PromptDirectory {
    type V = Seq<(u64, RuleModel)>;

    closed spec fn view(&self) -> Seq<(u64, RuleModel)> {
        self.entries@.map_values(|e: (u64, PromptRule)| (e.0, e.1@))
    }
}

impl PromptDirectory {
    /// No container is registered twice.
    pub open spec fn wf(&self) -> bool {
        keys_unique(self@)
    }

    /// The rule registered for `container`, if any.
    pub open spec fn rule_for(&self, container: u64) -> Option<RuleModel> {
        rule_in(self@, container)
    }

    /// A directory that registers no container.
    pub fn new() -> (r: PromptDirectory)
        ensures
            r@ == Seq::<(u64, RuleModel)>::empty(),
            r.wf(),
    {
        let r = PromptDirectory { entries: Vec::new() };
        assert(r@ =~= Seq::<(u64, RuleModel)>::empty());
        r
    }

    /// The position of `container`'s entry, if it has one.
    fn position_of(&self, container: u64) -> (r: Option<usize>)
        ensures
            match r {
                Some(i) => i < self@.len() && self@[i as int].0 == container,
                None => !has_key(self@, container),
            },
    {
        let mut i: usize = 0;
        while i < self.entries.len()
            invariant
                i <= self.entries.len(),
                self@.len() == self.entries.len(),
                forall|j: int| 0 <= j < i ==> (#[trigger] self@[j]).0 != container,
            decreases self.entries.len() - i,
        {
            if self.entries[i].0 == container {
                return Some(i);
            }
            i = i + 1;
        }
        None
    }

    /// Whether `container` is registered.
    pub fn contains(&self, container: u64) -> (r: bool)
        ensures
            r == has_key(self@, container),
    {
        self.position_of(container).is_some()
    }

    /// The rule registered for `container`, if any.
    pub fn get(&self, container: u64) -> (r: Option<&PromptRule>)
        requires
            self.wf(),
        ensures
            match r {
                Some(rule) => self.rule_for(container) == Some(rule@),
                None => self.rule_for(container) is None,
            },
    {
        match self.position_of(container) {
            Some(i) => {
                proof {
                    let j = choose|j: int| 0 <= j < self@.len() && (#[trigger] self@[j]).0 == container;
                    assert(self@[i as int].0 == self@[j].0);
                }
                Some(&self.entries[i].1)
            },
            None => None,
        }
    }
}

/// What one line of a prompt table says, as read.
pub enum ParsedLine {
    Skip,
    Entry(u64, PromptRule),
    Bad,
}

impl View for ParsedLine {
    type V = LineModel;

    open spec fn view(&self) -> LineModel {
        match self {
            ParsedLine::Skip => LineModel::Skip,
            ParsedLine::Entry(k, r) => LineModel::Entry(*k, r@),
            ParsedLine::Bad => LineModel::Bad,
        }
    }
}

/// Reads the line `cs[from..to]` of `table`, whose characters are `cs`.
fn read_line(table: &str, cs: &Vec<char>, from: usize, to: usize) -> (r: ParsedLine)
    requires
        cs@ == table@,
        from <= to <= cs@.len(),
    ensures
        r@ == line_model(cs@.subrange(from as int, to as int)),
{
    let ghost l = cs@.subrange(from as int, to as int);
    if from == to || cs[from] == '#' {
        return ParsedLine::Skip;
    }
    let mut k: usize = from;
    while k < to && cs[k] != ' '
        invariant
            from <= k <= to <= cs@.len(),
            l == cs@.subrange(from as int, to as int),
            forall|j: int| from <= j < k ==> cs@[j] != ' ',
        decreases to - k,
    {
        k = k + 1;
    }
    proof {
        lemma_first_index(l, ' ', k - from);
        assert(l.take(k - from) =~= cs@.subrange(from as int, k as int));
    }
    match parse_id(cs, from, k) {
        None => ParsedLine::Bad,
        Some(container) => {
            if k == to {
                return ParsedLine::Bad;
            }
            let rs = k + 1;
            let ghost rest = l.skip(k - from + 1);
            assert(rest =~= cs@.subrange(rs as int, to as int));
            if to - rs >= 2 && cs[rs] == '=' && cs[rs + 1] == ' ' {
                let text = table.substring_char(rs + 2, to).to_owned();
                assert(text@ =~= rest.skip(2));
                ParsedLine::Entry(container, PromptRule::Literal(text))
            } else {
                match parse_id(cs, rs, to) {
                    Some(source) => ParsedLine::Entry(container, PromptRule::DynamicReference(source)),
                    None => ParsedLine::Bad,
                }
            }
        },
    }
}

impl PromptDirectory {
    /// Reads a prompt table, one rule per line (see [`line_model`]); refuses the
    /// table at its first malformed line or repeated container.
    pub fn from_table(table: &str) -> (r: Result<PromptDirectory, TableError>)
        ensures
            match r {
                Ok(d) => d.wf() && table_entries(table@) == Ok::<Seq<(u64, RuleModel)>, TableError>(d@),
                Err(e) => table_entries(table@) == Err::<Seq<(u64, RuleModel)>, TableError>(e),
            },
    {
        let cs = chars_of(table);
        let mut dir = PromptDirectory::new();
        let mut pos: usize = 0;
        let mut index: usize = 0;
        assert(cs@.skip(0) =~= cs@);
        loop
            invariant
                pos <= cs@.len(),
                index <= pos,
                cs@ == table@,
                dir.wf(),
                table_entries(table@) == read_lines(lines_of(cs@.skip(pos as int)), (index + 1) as nat, dir@),
            decreases cs@.len() - pos,
        {
            let ghost rest = cs@.skip(pos as int);
            let ghost acc = dir@;
            let mut e: usize = pos;
            while e < cs.len() && cs[e] != '\n'
                invariant
                    pos <= e <= cs@.len(),
                    rest == cs@.skip(pos as int),
                    forall|j: int| pos <= j < e ==> cs@[j] != '\n',
                decreases cs@.len() - e,
            {
                e = e + 1;
            }
            proof {
                lemma_first_index(rest, '\n', e - pos);
                assert(rest.take(e - pos) =~= cs@.subrange(pos as int, e as int));
            }
            let ghost this_line = rest.take(e - pos);
            let ghost later = if e < cs@.len() {
                lines_of(rest.skip(e - pos + 1))
            } else {
                Seq::<Seq<char>>::empty()
            };
            proof {
                if e < cs@.len() {
                    assert(lines_of(rest) == seq![this_line] + later);
                } else {
                    assert(rest.take(e - pos) =~= rest);
                    assert(lines_of(rest) == seq![rest]);
                }
                assert(lines_of(rest)[0] == this_line);
                assert(lines_of(rest).drop_first() =~= later);
            }
            match read_line(table, &cs, pos, e) {
                ParsedLine::Skip => {},
                ParsedLine::Bad => {
                    return Err(TableError::Malformed { line: index + 1 });
                },
                ParsedLine::Entry(k, r) => {
                    if dir.contains(k) {
                        return Err(TableError::DuplicateContainer { line: index + 1 });
                    }
                    let ghost rv = r@;
                    dir.entries.push((k, r));
                    assert(dir@ =~= acc.push((k, rv)));
                },
            }
            assert(table_entries(table@) == read_lines(later, (index + 2) as nat, dir@));
            if e == cs.len() {
                assert(read_lines(later, (index + 2) as nat, dir@) == Ok::<Seq<(u64, RuleModel)>, TableError>(dir@));
                return Ok(dir);
            }
            assert(rest.skip(e - pos + 1) =~= cs@.skip(e + 1));
            pos = e + 1;
            index = index + 1;
        }
    }
}

} // verus!
