use vstd::prelude::*;
use crate::text::{chars_of, lines_of, split_lines};

verus! {

/// The role of a piece of text, which the display maps to colours.
#[derive(Clone, Copy, Debug, PartialEq, Eq, Structural)]
pub enum TextStyle {
    /// Ordinary text.
    Plain,
    /// The wording of a question or a message.
    Prompt,
    /// Text that the reader must not miss, such as a command line.
    Emphasis,
    /// The key of a `key: value` line.
    Key,
}

/// A run of text drawn in one style.
#[derive(Clone, Debug)]
pub struct Segment {
    pub text: String,
    pub style: TextStyle,
}

impl View for Segment {
    type V = (Seq<char>, TextStyle);

    open spec fn view(&self) -> (Seq<char>, TextStyle) {
        (self.text@, self.style)
    }
}

pub open spec fn segment_views(v: Seq<Segment>) -> Seq<(Seq<char>, TextStyle)> {
    v.map_values(|x: Segment| x@)
}

/// The index of the first `c` in `s`, or the length of `s` where there is none.
pub open spec fn find_char(s: Seq<char>, c: char) -> int
    decreases s.len(),
{
    if s.len() == 0 {
        0
    } else if s[0] == c {
        0
    } else {
        1 + find_char(s.skip(1), c)
    }
}

/// One line of data as styled segments: a line that holds the delimiter is a
/// key (up to and with the first delimiter) followed by its value; any other
/// line is plain text. Each line ends in a newline.
pub open spec fn styled_line(l: Seq<char>, d: char) -> Seq<(Seq<char>, TextStyle)> {
    let k = find_char(l, d);
    if k < l.len() {
        seq![(l.take(k + 1), TextStyle::Key), (l.skip(k + 1).push('\n'), TextStyle::Plain)]
    } else {
        seq![(l.push('\n'), TextStyle::Plain)]
    }
}

/// The segments of a sequence of lines, line after line.
pub open spec fn styled_lines(ls: Seq<Seq<char>>, d: char) -> Seq<(Seq<char>, TextStyle)>
    decreases ls.len(),
{
    if ls.len() == 0 {
        Seq::empty()
    } else {
        styled_lines(ls.drop_last(), d) + styled_line(ls.last(), d)
    }
}

/// Finds the first `c` in `s`; the length of `s` where there is none.
pub fn find_char_in(s: &str, c: char) -> (r: usize)
    ensures
        r as int == find_char(s@, c),
        r <= s@.len(),
{
    let cs = chars_of(s);
    let n = cs.len();
    let mut i: usize = 0;
    assert(s@.skip(0) =~= s@);
    while i < n && cs[i] != c
        invariant
            n == s@.len(),
            cs@ == s@,
            i <= n,
            find_char(s@, c) == i + find_char(s@.skip(i as int), c),
        decreases n - i,
    {
        assert(s@.skip(i as int).skip(1) =~= s@.skip(i as int + 1));
        i += 1;
    }
    if i == n {
        assert(s@.skip(n as int) =~= Seq::<char>::empty());
    }
    i
}

/// Text styled in segments, with the number of lines it takes.
pub struct StyledText {
    pub segments: Vec<Segment>,
    pub line_count: usize,
}

impl StyledText {
    /// An empty text.
    pub fn new() -> (r: StyledText)
        ensures
            r.segments@.len() == 0,
            r.line_count == 0,
    {
        StyledText { segments: Vec::new(), line_count: 0 }
    }

    /// The number of lines of the text.
    pub fn lines(&self) -> (r: usize)
        ensures
            r == self.line_count,
    {
        self.line_count
    }

    /// Replaces the text with the given segments, which take `lines` lines.
    pub fn set_styled_text(&mut self, segments: Vec<Segment>, lines: usize)
        ensures
            final(self).segments@ == segments@,
            final(self).line_count == lines,
    {
        self.segments = segments;
        self.line_count = lines;
    }

    /// Replaces the text with `data`, each of its lines styled as a
    /// `key<delimiter> value` pair where it holds the delimiter.
    pub fn stylize_data(&mut self, data: &str, delimiter: char)
        ensures
            segment_views(final(self).segments@) == styled_lines(lines_of(data@), delimiter),
            final(self).line_count == lines_of(data@).len(),
    {
        let lines = split_lines(data);
        let ghost ls = lines_of(data@);
        let newline = "\n";
        proof {
            reveal_strlit("\n");
        }
        let mut segments: Vec<Segment> = Vec::new();
        let mut i: usize = 0;
        assert(ls.take(0) =~= Seq::<Seq<char>>::empty());
        assert(segment_views(segments@) =~= Seq::empty());
        while i < lines.len()
            invariant
                crate::text::views(lines@) == ls,
                newline@ == seq!['\n'],
                i <= lines.len(),
                segment_views(segments@) == styled_lines(ls.take(i as int), delimiter),
            decreases lines.len() - i,
        {
            let line = lines[i].as_str();
            assert(line@ == ls[i as int]);
            let n = line.unicode_len();
            let k = find_char_in(line, delimiter);
            let ghost before = segments@;
            if k < n {
                let key = line.substring_char(0, k + 1).to_owned();
                let mut value = line.substring_char(k + 1, n).to_owned();
                value.append(newline);
                segments.push(Segment { text: key, style: TextStyle::Key });
                segments.push(Segment { text: value, style: TextStyle::Plain });
                assert(value@ =~= line@.skip(k + 1).push('\n'));
                assert(segment_views(segments@) =~= segment_views(before) + styled_line(
                    line@,
                    delimiter,
                ));
            } else {
                let mut whole = line.to_owned();
                whole.append(newline);
                segments.push(Segment { text: whole, style: TextStyle::Plain });
                assert(whole@ =~= line@.push('\n'));
                assert(segment_views(segments@) =~= segment_views(before) + styled_line(
                    line@,
                    delimiter,
                ));
            }
            assert(ls.take(i as int + 1).drop_last() =~= ls.take(i as int));
            i += 1;
        }
        assert(ls.take(lines.len() as int) =~= ls);
        self.segments = segments;
        self.line_count = lines.len();
    }
}

} // verus!
