use vstd::prelude::*;
use crate::cmd::{command_desc, command_line, Command, ModuleCommand};
use crate::style::{segment_views, styled_lines, Segment, StyledText, TextStyle};
use crate::text::{
    break_after_signature, break_signatures, decimal_value, is_decimal, is_space,
    lemma_break_nonempty, lemma_lines_nonempty, lemma_words_exist, lemma_words_shape, lines_of,
    parse_decimal, pieces, split_lines, split_on, split_words, views, words,
};

verus! {

/// A direction in which a list or a text is moved.
#[derive(Clone, Copy, Debug, PartialEq, Eq, Structural)]
pub enum ScrollDirection {
    Up,
    Down,
    Top,
    Bottom,
}

/// Why the module table could not be read.
#[derive(Clone, Copy, Debug, PartialEq, Eq, Structural)]
pub enum LoadError {
    /// A row has fewer than three columns.
    MissingColumns,
    /// A row's size column is not a decimal number that fits in 64 bits.
    InvalidSize,
}

/// The human-readable form of a byte count.
pub uninterp spec fn byte_size_text(bytes: u64) -> Seq<char>;

/// Relies on bytesize's `Display` for `ByteSize` (`ByteSize::b(n).to_string()`):
/// the text depends on the byte count alone.
#[verifier::external_body]
fn human_size(bytes: u64) -> (r: String)
    ensures
        r@ == byte_size_text(bytes),
{
    bytesize::ByteSize::b(bytes).to_string()
}

/// The shell pipeline that lists the loaded modules; sorting by size takes
/// precedence over sorting by name.
pub open spec fn read_command(sort_by_size: bool, sort_by_name: bool) -> Seq<char> {
    if sort_by_size {
        "cat /proc/modules"@ + " | sort -n -r -t ' ' -k2"@
    } else if sort_by_name {
        "cat /proc/modules"@ + " | sort -t ' ' -k1"@
    } else {
        "cat /proc/modules"@
    }
}

/// Builds the shell pipeline that lists the loaded modules.
pub fn module_read_command(sort_by_size: bool, sort_by_name: bool) -> (r: String)
    ensures
        r@ == read_command(sort_by_size, sort_by_name),
{
    let mut cmd = String::from_str("cat /proc/modules");
    if sort_by_size {
        cmd.append(" | sort -n -r -t ' ' -k2");
    } else if sort_by_name {
        cmd.append(" | sort -t ' ' -k1");
    }
    cmd
}

/// Whether a row of the module table can be read.
pub open spec fn row_ok(line: Seq<char>) -> bool {
    let c = words(line);
    c.len() >= 3 && is_decimal(c[1]) && decimal_value(c[1]) <= u64::MAX
}

/// What is wrong with a row that cannot be read.
pub open spec fn row_error(line: Seq<char>) -> LoadError {
    if words(line).len() < 3 {
        LoadError::MissingColumns
    } else {
        LoadError::InvalidSize
    }
}

/// The name column, followed by the status column where the row has one.
pub open spec fn name_field(c: Seq<Seq<char>>) -> Seq<char> {
    if c.len() >= 7 {
        c[0] + seq![' '] + c[6]
    } else {
        c[0]
    }
}

/// The use count and the list of dependent modules, without a trailing comma.
pub open spec fn used_field(c: Seq<Seq<char>>) -> Seq<char> {
    let u = c[2] + seq![' '] + (if c.len() >= 4 {
        c[3]
    } else {
        Seq::empty()
    });
    if u.last() == ',' {
        u.drop_last()
    } else {
        u
    }
}

/// The record of a readable row: name, size and dependents.
pub open spec fn record_of(line: Seq<char>) -> Seq<Seq<char>> {
    let c = words(line);
    seq![name_field(c), byte_size_text(decimal_value(c[1]) as u64), used_field(c)]
}

/// The table of records, as text.
pub open spec fn table(t: Seq<Vec<String>>) -> Seq<Seq<Seq<char>>> {
    t.map_values(|r: Vec<String>| views(r@))
}

/// Reads one row of the module table into its record.
pub fn parse_module_line(line: &str) -> (r: Result<Vec<String>, LoadError>)
    ensures
        r is Ok <==> row_ok(line@),
        r matches Ok(v) ==> views(v@) == record_of(line@),
        r matches Err(e) ==> e == row_error(line@),
{
    let columns = split_words(line);
    let ghost c = words(line@);
    if columns.len() < 3 {
        return Err(LoadError::MissingColumns);
    }
    let bytes = match parse_decimal(columns[1].as_str()) {
        Some(b) => b,
        None => {
            return Err(LoadError::InvalidSize);
        },
    };
    assert(columns[1]@ == c[1]);
    let mut name = columns[0].clone();
    if columns.len() >= 7 {
        name.append(" ");
        name.append(columns[6].as_str());
        proof {
            reveal_strlit(" ");
        }
        assert(name@ =~= name_field(c));
    }
    let mut used = columns[2].clone();
    used.append(" ");
    if columns.len() >= 4 {
        used.append(columns[3].as_str());
    }
    proof {
        reveal_strlit(" ");
    }
    let ghost u = c[2] + seq![' '] + (if c.len() >= 4 {
        c[3]
    } else {
        Seq::empty()
    });
    assert(used@ =~= u);
    let n = used.unicode_len();
    let used = if used.as_str().get_char(n - 1) == ',' {
        let trimmed = used.as_str().substring_char(0, n - 1).to_owned();
        assert(trimmed@ =~= u.drop_last());
        trimmed
    } else {
        used
    };
    let size = human_size(bytes);
    let mut record: Vec<String> = Vec::new();
    record.push(name);
    record.push(size);
    record.push(used);
    assert(views(record@) =~= record_of(line@));
    Ok(record)
}

/// Reads the module table, one record for each line.
pub fn parse_modules(content: &str) -> (r: Result<Vec<Vec<String>>, LoadError>)
    ensures
        r is Ok <==> forall|i: int|
            0 <= i < lines_of(content@).len() ==> row_ok(#[trigger] lines_of(content@)[i]),
        r matches Ok(t) ==> table(t@) == lines_of(content@).map_values(
            |l: Seq<char>| record_of(l),
        ),
        r matches Err(e) ==> exists|i: int|
            0 <= i < lines_of(content@).len() && !row_ok(#[trigger] lines_of(content@)[i])
                && e == row_error(lines_of(content@)[i]),
{
    let lines = split_lines(content);
    let ghost ls = lines_of(content@);
    let mut list: Vec<Vec<String>> = Vec::new();
    let mut i: usize = 0;
    while i < lines.len()
        invariant
            ls == lines_of(content@),
            views(lines@) == ls,
            i <= lines.len(),
            forall|j: int| 0 <= j < i ==> row_ok(#[trigger] ls[j]),
            table(list@) == ls.take(i as int).map_values(|l: Seq<char>| record_of(l)),
        decreases lines.len() - i,
    {
        assert(lines[i as int]@ == ls[i as int]);
        let parsed = parse_module_line(lines[i].as_str());
        match parsed {
            Ok(record) => {
                let ghost before = list@;
                let ghost rv = views(record@);
                list.push(record);
                assert(table(list@) =~= table(before).push(rv));
                assert(ls.take(i as int + 1).map_values(|l: Seq<char>| record_of(l))
                    =~= ls.take(i as int).map_values(|l: Seq<char>| record_of(l)).push(
                    record_of(ls[i as int]),
                ));
            },
            Err(e) => {
                assert(!row_ok(ls[i as int]) && e == row_error(ls[i as int]));
                assert(!row_ok(lines_of(content@)[i as int]));
                return Err(e);
            },
        }
        i += 1;
    }
    assert(ls.take(lines.len() as int) =~= ls);
    Ok(list)
}

/// A copy of a table, in the same order or reversed.
fn copy_table(t: &Vec<Vec<String>>, reverse: bool) -> (r: Vec<Vec<String>>)
    ensures
        r.len() == t.len(),
        forall|i: int|
            0 <= i < t.len() ==> #[trigger] table(r@)[i] == table(t@)[if reverse {
                t.len() - 1 - i
            } else {
                i
            }],
        forall|i: int|
            0 <= i < t.len() ==> #[trigger] r@[i].len() == t@[if reverse {
                t.len() - 1 - i
            } else {
                i
            }].len(),
{
    let n = t.len();
    let mut r: Vec<Vec<String>> = Vec::new();
    let mut i: usize = 0;
    while i < n
        invariant
            n == t.len(),
            i <= n,
            r.len() == i,
            forall|k: int|
                0 <= k < i ==> #[trigger] table(r@)[k] == table(t@)[if reverse {
                    n - 1 - k
                } else {
                    k
                }],
            forall|k: int|
                0 <= k < i ==> #[trigger] r@[k].len() == t@[if reverse {
                    n - 1 - k
                } else {
                    k
                }].len(),
        decreases n - i,
    {
        let j = if reverse {
            n - 1 - i
        } else {
            i
        };
        let row = &t[j];
        let mut copy: Vec<String> = Vec::new();
        let mut k: usize = 0;
        while k < row.len()
            invariant
                k <= row.len(),
                copy.len() == k,
                forall|m: int| 0 <= m < k ==> #[trigger] copy@[m]@ == row@[m]@,
            decreases row.len() - k,
        {
            copy.push(row[k].clone());
            k += 1;
        }
        assert(views(copy@) =~= views(row@));
        let ghost before = r@;
        r.push(copy);
        assert forall|k: int| 0 <= k < i + 1 implies #[trigger] table(r@)[k] == table(t@)[if reverse {
            n - 1 - k
        } else {
            k
        }] by {
            if k < i {
                assert(table(r@)[k] == table(before)[k]);
            }
        }
        i += 1;
    }
    r
}

/// Where the cursor of a list of `n` entries lands after one move from `i`;
/// moving past either end wraps round to the other.
pub open spec fn moved_index(i: int, n: int, d: ScrollDirection) -> int {
    match d {
        ScrollDirection::Up => if i > 0 {
            i - 1
        } else {
            n - 1
        },
        ScrollDirection::Down => if i + 1 > n - 1 {
            0
        } else {
            i + 1
        },
        ScrollDirection::Top => 0,
        ScrollDirection::Bottom => n - 1,
    }
}

/// The first word of `s`; empty where there is none.
pub open spec fn first_word(s: Seq<char>) -> Seq<char> {
    if words(s).len() > 0 {
        words(s)[0]
    } else {
        Seq::empty()
    }
}

/// The text shown for a module: what the lookup returned, or a failure notice.
pub open spec fn info_text(info: Option<String>) -> Seq<char> {
    match info {
        Some(s) => s@,
        None => "failed to retrieve module information"@,
    }
}

/// The question shown while the command `c` waits for confirmation.
pub open spec fn prompt_segments(c: ModuleCommand, name: Seq<char>) -> Seq<(Seq<char>, TextStyle)> {
    seq![
        ("\nExecute the following command? [y/N]:\n\n"@, TextStyle::Prompt),
        (command_line(c, name), TextStyle::Emphasis),
        ("\n\n"@ + command_desc(c), TextStyle::Prompt),
    ]
}

/// The notice shown when the command line `cmd` failed with `err`.
pub open spec fn failure_segments(cmd: Seq<char>, err: Seq<char>) -> Seq<(Seq<char>, TextStyle)> {
    seq![
        ("\nFailed to execute command: "@, TextStyle::Prompt),
        ("'"@ + cmd + "'\n\n"@ + err, TextStyle::Emphasis),
    ]
}

/// The name of the dependent module at position `slot` of the entry at
/// `index`, where there is one.
pub open spec fn dependent_at(list: Seq<Vec<String>>, index: int, slot: int) -> Option<Seq<char>> {
    if 0 <= index < list.len() && list[index].len() == 3 {
        let f = pieces(list[index]@[2]@, ' ');
        if f.len() >= 2 {
            let names = pieces(f[1], ',');
            if 0 <= slot < names.len() && names[slot] != seq!['-'] {
                Some(names[slot])
            } else {
                None
            }
        } else {
            None
        }
    } else {
        None
    }
}

/// The loaded kernel modules, the selected one, and what is shown about it.
pub struct KernelModules {
    /// The table as it was loaded.
    pub default_list: Vec<Vec<String>>,
    /// The table on display: name, size and dependents of each module.
    pub list: Vec<Vec<String>>,
    /// The name of the selected module, as the kernel knows it.
    pub current_name: String,
    /// What is shown about the selected module or the staged command.
    pub current_info: StyledText,
    /// The command waiting for confirmation.
    pub command: ModuleCommand,
    /// The position of the selected module.
    pub index: usize,
    /// How far the information text is scrolled.
    pub info_scroll_offset: usize,
}

impl KernelModules {
    pub open spec fn wf(&self) -> bool {
        &&& (self.list.len() == 0 ==> self.index == 0)
        &&& (self.list.len() > 0 ==> self.index < self.list.len())
        &&& forall|i: int| 0 <= i < self.list.len() ==> (#[trigger] self.list@[i]).len() == 3
    }

    /// The state right after a move of the selection to `d`, from `old`.
    pub open spec fn moved(old: KernelModules, new: KernelModules, d: ScrollDirection) -> bool {
        &&& new.list == old.list
        &&& new.default_list == old.default_list
        &&& new.current_info == old.current_info
        &&& new.info_scroll_offset == 0
        &&& if old.list.len() == 0 {
            &&& new.index == 0
            &&& new.command == old.command
            &&& new.current_name == old.current_name
        } else {
            &&& new.index == moved_index(old.index as int, old.list.len() as int, d)
            &&& new.current_name@ == first_word(old.list@[new.index as int]@[0]@)
            &&& new.command == ModuleCommand::NoCommand
        }
    }

    /// Loads the module table from `content`, the text of the kernel's module
    /// list, reversed where `reverse` holds, and selects the first module.
    pub fn new(content: &str, reverse: bool) -> (r: Result<KernelModules, LoadError>)
        ensures
            r is Ok <==> forall|i: int|
                0 <= i < lines_of(content@).len() ==> row_ok(#[trigger] lines_of(content@)[i]),
            r matches Err(e) ==> exists|i: int|
                0 <= i < lines_of(content@).len() && !row_ok(#[trigger] lines_of(content@)[i])
                    && e == row_error(lines_of(content@)[i]),
            r matches Ok(km) ==> {
                let ls = lines_of(content@);
                &&& km.wf()
                &&& km.list.len() == ls.len()
                &&& forall|i: int|
                    0 <= i < ls.len() ==> #[trigger] table(km.list@)[i] == record_of(
                        ls[if reverse {
                            ls.len() - 1 - i
                        } else {
                            i
                        }],
                    )
                &&& table(km.default_list@) == table(km.list@)
                &&& km.index == 0
                &&& km.info_scroll_offset == 0
                &&& km.command == ModuleCommand::NoCommand
                &&& km.current_info.line_count == 0
                &&& km.default_list.len() == km.list.len()
                &&& ls.len() > 0 ==> km.current_name@ == first_word(km.list@[0]@[0]@)
                    && km.current_name@.len() > 0
            },
    {
        let parsed = match parse_modules(content) {
            Ok(t) => t,
            Err(e) => {
                return Err(e);
            },
        };
        let ghost ls = lines_of(content@);
        assert(table(parsed@).len() == ls.len());
        let list = copy_table(&parsed, reverse);
        let default_list = copy_table(&list, false);
        assert(table(default_list@) =~= table(list@));
        assert forall|i: int| 0 <= i < list.len() implies (#[trigger] list@[i]).len() == 3 by {
            let j = if reverse {
                list.len() - 1 - i
            } else {
                i
            };
            assert(table(parsed@)[j] == record_of(ls[j]));
            assert(views(parsed@[j]@).len() == 3);
        }
        assert forall|i: int| 0 <= i < ls.len() implies #[trigger] table(list@)[i] == record_of(
            ls[if reverse {
                ls.len() - 1 - i
            } else {
                i
            }],
        ) by {
            let j = if reverse {
                ls.len() - 1 - i
            } else {
                i
            };
            assert(table(parsed@)[j] == record_of(ls[j]));
        }
        let mut km = KernelModules {
            default_list,
            list,
            current_name: String::new(),
            current_info: StyledText::new(),
            command: ModuleCommand::NoCommand,
            index: 0,
            info_scroll_offset: 0,
        };
        km.scroll_list(ScrollDirection::Top);
        proof {
            if ls.len() > 0 {
                let j = if reverse {
                    ls.len() - 1
                } else {
                    0
                };
                assert(table(km.list@)[0] == record_of(ls[j]));
                assert(km.list@[0]@[0]@ == record_of(ls[j])[0]);
                lemma_record_name_has_word(ls[j]);
            }
        }
        Ok(km)
    }

    /// The staged command, for the selected module.
    pub fn get_current_command(&self) -> (r: Command)
        ensures
            r.cmd@ == command_line(self.command, self.current_name@),
            r.desc@ == command_desc(self.command),
    {
        self.command.get(self.current_name.as_str())
    }

    /// Stages `module_command` and shows the question that asks for its
    /// confirmation.
    pub fn set_current_command(&mut self, module_command: ModuleCommand)
        ensures
            final(self).command == module_command,
            segment_views(final(self).current_info.segments@) == prompt_segments(
                module_command,
                old(self).current_name@,
            ),
            final(self).current_info.line_count == 5,
            final(self).info_scroll_offset == 0,
            final(self).list == old(self).list,
            final(self).default_list == old(self).default_list,
            final(self).index == old(self).index,
            final(self).current_name == old(self).current_name,
    {
        self.command = module_command;
        let command = self.get_current_command();
        let mut desc = String::from_str("\n\n");
        desc.append(command.desc.as_str());
        let mut segments: Vec<Segment> = Vec::new();
        segments.push(
            Segment {
                text: String::from_str("\nExecute the following command? [y/N]:\n\n"),
                style: TextStyle::Prompt,
            },
        );
        segments.push(Segment { text: command.cmd, style: TextStyle::Emphasis });
        segments.push(Segment { text: desc, style: TextStyle::Prompt });
        assert(segment_views(segments@) =~= prompt_segments(module_command, self.current_name@));
        self.current_info.set_styled_text(segments, 5);
        self.info_scroll_offset = 0;
    }

    /// Takes in the outcome of running the staged command (its output, or
    /// the error that it failed with) and clears it. Returns whether a staged
    /// command ran successfully; with no command staged nothing changes.
    pub fn exec_current_command(&mut self, outcome: Result<String, String>) -> (r: bool)
        ensures
            final(self).command == ModuleCommand::NoCommand,
            old(self).command == ModuleCommand::NoCommand ==> !r && *final(self) == *old(self),
            old(self).command != ModuleCommand::NoCommand ==> {
                &&& final(self).command == ModuleCommand::NoCommand
                &&& r == outcome is Ok
                &&& final(self).list == old(self).list
                &&& final(self).default_list == old(self).default_list
                &&& final(self).index == old(self).index
                &&& final(self).current_name == old(self).current_name
                &&& outcome is Ok ==> final(self).current_info == old(self).current_info
                    && final(self).info_scroll_offset == old(self).info_scroll_offset
                &&& outcome matches Err(e) ==> segment_views(final(self).current_info.segments@)
                    == failure_segments(
                    command_line(old(self).command, old(self).current_name@),
                    e@,
                ) && final(self).current_info.line_count == 3 && final(self).info_scroll_offset
                    == 0
            },
    {
        let mut executed = false;
        if !self.command.is_none() {
            match outcome {
                Ok(_) => {
                    executed = true;
                },
                Err(e) => {
                    let command = self.get_current_command();
                    let mut text = String::from_str("'");
                    text.append(command.cmd.as_str());
                    text.append("'\n\n");
                    text.append(e.as_str());
                    let mut segments: Vec<Segment> = Vec::new();
                    segments.push(
                        Segment {
                            text: String::from_str("\nFailed to execute command: "),
                            style: TextStyle::Prompt,
                        },
                    );
                    segments.push(Segment { text, style: TextStyle::Emphasis });
                    assert(segment_views(segments@) =~= failure_segments(
                        command.cmd@,
                        e@,
                    ));
                    self.current_info.set_styled_text(segments, 3);
                    self.info_scroll_offset = 0;
                },
            }
            self.command = ModuleCommand::NoCommand;
        }
        executed
    }

    /// Shows what the lookup of the selected module returned (`None` where it
    /// failed), with each signature value put on a line of its own.
    pub fn set_module_info(&mut self, info: Option<String>)
        ensures
            segment_views(final(self).current_info.segments@) == styled_lines(
                lines_of(break_signatures(info_text(info))),
                ':',
            ),
            final(self).current_info.line_count == lines_of(break_signatures(info_text(info))).len(),
            info_text(info).len() > 0 ==> final(self).current_info.line_count >= 1,
            final(self).info_scroll_offset == 0,
            final(self).list == old(self).list,
            final(self).default_list == old(self).default_list,
            final(self).index == old(self).index,
            final(self).current_name == old(self).current_name,
            final(self).command == old(self).command,
    {
        let raw = match info {
            Some(s) => s,
            None => String::from_str("failed to retrieve module information"),
        };
        proof {
            reveal_strlit("failed to retrieve module information");
            if raw@.len() > 0 {
                lemma_break_nonempty(raw@);
                lemma_lines_nonempty(break_signatures(raw@));
            }
        }
        let text = break_after_signature(raw.as_str());
        self.current_info.stylize_data(text.as_str(), ':');
        self.info_scroll_offset = 0;
    }

    /// Selects the dependent module at position `slot` of the selected
    /// module's dependents. Returns whether the selection moved, in which case
    /// the information of the newly selected module is to be shown.
    pub fn show_used_module_info(&mut self, slot: usize) -> (r: bool)
        requires
            old(self).wf(),
        ensures
            final(self).wf(),
            r == dependent_at(old(self).list@, old(self).index as int, slot as int) is Some,
            !r ==> *final(self) == *old(self),
            dependent_at(old(self).list@, old(self).index as int, slot as int) matches Some(name)
                ==> {
                &&& final(self).list == old(self).list
                &&& final(self).default_list == old(self).default_list
                &&& final(self).current_info == old(self).current_info
                &&& final(self).info_scroll_offset == 0
                &&& final(self).command == ModuleCommand::NoCommand
                &&& final(self).current_name@ == first_word(
                    old(self).list@[final(self).index as int]@[0]@,
                )
                &&& (exists|p: int|
                    0 <= p < old(self).list.len() && #[trigger] old(self).list@[p]@[0]@ == name)
                    ==> old(self).list@[final(self).index as int]@[0]@ == name && forall|q: int|
                    0 <= q < final(self).index ==> #[trigger] old(self).list@[q]@[0]@ != name
                &&& !(exists|p: int|
                    0 <= p < old(self).list.len() && #[trigger] old(self).list@[p]@[0]@ == name)
                    ==> final(self).index == old(self).index
            },
    {
        let n = self.list.len();
        if n == 0 {
            return false;
        }
        let fields = split_on(self.list[self.index][2].as_str(), ' ');
        if fields.len() < 2 {
            return false;
        }
        let names = split_on(fields[1].as_str(), ',');
        if slot >= names.len() {
            return false;
        }
        let used = names[slot].as_str();
        if used.unicode_len() == 1 && used.get_char(0) == '-' {
            assert(used@ =~= seq!['-']);
            return false;
        }
        assert(used@ != seq!['-']) by {
            if used@ == seq!['-'] {
                assert(used@.len() == 1 && used@[0] == '-');
            }
        }
        let ghost f = pieces(self.list@[self.index as int]@[2]@, ' ');
        assert(fields@[1]@ == f[1]);
        assert(used@ == pieces(f[1], ',')[slot as int]);
        let mut p: usize = 0;
        let mut found = false;
        while p < n && !found
            invariant
                n == self.list.len(),
                self.wf(),
                p <= n,
                found ==> p < n && self.list@[p as int]@[0]@ == used@,
                forall|q: int| 0 <= q < p ==> #[trigger] self.list@[q]@[0]@ != used@,
            decreases n - p + (if found {
                0int
            } else {
                1int
            }),
        {
            if self.list[p][0].as_str().unicode_len() == used.unicode_len() && equal_text(
                self.list[p][0].as_str(),
                used,
            ) {
                found = true;
            } else {
                p += 1;
            }
        }
        let target = if found {
            p
        } else {
            self.index
        };
        proof {
            if !found {
                assert(!exists|q: int|
                    0 <= q < n && #[trigger] self.list@[q]@[0]@ == used@);
            }
        }
        self.index = if target == 0 {
            n - 1
        } else {
            target - 1
        };
        self.scroll_list(ScrollDirection::Down);
        true
    }

    /// Moves the selection to `direction`, wrapping round at either end, and
    /// clears the staged command. Returns whether a module is selected, in
    /// which case its information is to be shown.
    pub fn scroll_list(&mut self, direction: ScrollDirection) -> (r: bool)
        requires
            old(self).wf(),
        ensures
            final(self).wf(),
            r == (old(self).list.len() > 0),
            KernelModules::moved(*old(self), *final(self), direction),
            old(self).list.len() > 0 ==> final(self).command == ModuleCommand::NoCommand,
            old(self).list.len() == 0 ==> final(self).index == 0,
    {
        self.info_scroll_offset = 0;
        if self.list.len() == 0 {
            self.index = 0;
            false
        } else {
            match direction {
                ScrollDirection::Up => self.previous_module(),
                ScrollDirection::Down => self.next_module(),
                ScrollDirection::Top => self.index = 0,
                ScrollDirection::Bottom => self.index = self.list.len() - 1,
            }
            let words = split_words(self.list[self.index][0].as_str());
            self.current_name = if words.len() > 0 {
                words[0].clone()
            } else {
                String::new()
            };
            assert(self.current_name@ =~= first_word(self.list@[self.index as int]@[0]@));
            self.command = ModuleCommand::NoCommand;
            true
        }
    }

    /// Selects the next module, or the first after the last.
    pub fn next_module(&mut self)
        requires
            old(self).list.len() > 0,
            old(self).index < old(self).list.len(),
        ensures
            final(self).index == moved_index(
                old(self).index as int,
                old(self).list.len() as int,
                ScrollDirection::Down,
            ),
            *final(self) == (KernelModules { index: final(self).index, ..*old(self) }),
    {
        self.index += 1;
        if self.index > self.list.len() - 1 {
            self.index = 0;
        }
    }

    /// Selects the previous module, or the last before the first.
    pub fn previous_module(&mut self)
        requires
            old(self).list.len() > 0,
        ensures
            final(self).index == moved_index(
                old(self).index as int,
                old(self).list.len() as int,
                ScrollDirection::Up,
            ),
            *final(self) == (KernelModules { index: final(self).index, ..*old(self) }),
    {
        if self.index > 0 {
            self.index -= 1;
        } else {
            self.index = self.list.len() - 1;
        }
    }

    /// Scrolls the information text by one line (`smooth_scroll`) or two.
    /// Upwards it stops at the top; downwards it wraps round after twice the
    /// number of lines of the text, and stays where the text has no line (or
    /// more lines than twice their number can be counted in a `usize`).
    pub fn scroll_mod_info(&mut self, direction: ScrollDirection, smooth_scroll: bool)
        ensures
            ({
                let step: int = if smooth_scroll {
                    1
                } else {
                    2
                };
                let off = old(self).info_scroll_offset as int;
                let lc = old(self).current_info.line_count as int;
                final(self).info_scroll_offset as int == match direction {
                    ScrollDirection::Up => if off >= step {
                        off - step
                    } else {
                        0
                    },
                    ScrollDirection::Down => if 0 < lc && lc <= usize::MAX / 2 {
                        (off + step) % (2 * lc)
                    } else {
                        off
                    },
                    _ => off,
                }
            }),
            *final(self) == (KernelModules {
                info_scroll_offset: final(self).info_scroll_offset,
                ..*old(self)
            }),
            direction == ScrollDirection::Up && old(self).info_scroll_offset == 0
                ==> final(self).info_scroll_offset == 0,
            direction == ScrollDirection::Down && 0 < old(self).current_info.line_count
                <= usize::MAX / 2 ==> final(self).info_scroll_offset < 2
                * old(self).current_info.line_count,
    {
        let step: usize = if smooth_scroll {
            1
        } else {
            2
        };
        match direction {
            ScrollDirection::Up => {
                if self.info_scroll_offset >= step {
                    self.info_scroll_offset -= step;
                } else {
                    self.info_scroll_offset = 0;
                }
            },
            ScrollDirection::Down => {
                let lc = self.current_info.lines();
                if lc > 0 && lc <= usize::MAX / 2 {
                    let wrap = lc * 2;
                    let next = (self.info_scroll_offset as u128 + step as u128) % (wrap as u128);
                    self.info_scroll_offset = next as usize;
                }
            },
            _ => {},
        }
    }
}

/// Whether two texts of the same length hold the same characters.
fn equal_text(a: &str, b: &str) -> (r: bool)
    requires
        a@.len() == b@.len(),
    ensures
        r == (a@ == b@),
{
    let n = a.unicode_len();
    let mut i: usize = 0;
    while i < n
        invariant
            n == a@.len(),
            n == b@.len(),
            i <= n,
            forall|j: int| 0 <= j < i ==> a@[j] == b@[j],
        decreases n - i,
    {
        if a.get_char(i) != b.get_char(i) {
            return false;
        }
        i += 1;
    }
    assert(a@ =~= b@);
    true
}

/// The name of every readable row starts with a word, which is what the
/// module is called.
pub proof fn lemma_record_name_has_word(line: Seq<char>)
    requires
        row_ok(line),
    ensures
        first_word(record_of(line)[0]).len() > 0,
{
    let c = words(line);
    lemma_words_shape(line);
    let name = name_field(c);
    assert(c[0].len() > 0 && !is_space(c[0][0]));
    assert(name[0] == c[0][0]);
    lemma_words_exist(name, 0);
    lemma_words_shape(name);
}

/// `k` moves down from `i` in a list of `n` entries.
pub open spec fn down_steps(i: int, n: int, k: nat) -> int
    decreases k,
{
    if k == 0 {
        i
    } else {
        moved_index(down_steps(i, n, (k - 1) as nat), n, ScrollDirection::Down)
    }
}

proof fn lemma_down_prefix(n: int, k: nat)
    requires
        k < n,
    ensures
        down_steps(0, n, k) == k,
    decreases k,
{
    if k > 0 {
        lemma_down_prefix(n, (k - 1) as nat);
    }
}

/// In a list of `n` entries, `n` moves down from the first entry come back
/// to it, and one move up from the first entry lands on the last.
pub proof fn lemma_wrap_around(n: int)
    requires
        n >= 1,
    ensures
        down_steps(0, n, n as nat) == 0,
        moved_index(0, n, ScrollDirection::Up) == n - 1,
{
    lemma_down_prefix(n, (n - 1) as nat);
}

/// A dependent slot past the end of the selected module's dependents names
/// no module.
pub proof fn lemma_slot_beyond_dependents(list: Seq<Vec<String>>, index: int, slot: int)
    requires
        0 <= index < list.len(),
        list[index].len() == 3,
        pieces(list[index]@[2]@, ' ').len() >= 2,
        slot >= pieces(pieces(list[index]@[2]@, ' ')[1], ',').len(),
    ensures
        dependent_at(list, index, slot) is None,
{
}

} // verus!
