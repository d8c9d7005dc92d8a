//! A line-oriented text writer that indents the first text of each line.
use vstd::prelude::*;

verus! {

broadcast use vstd::seq::group_seq_axioms;

/// The limit on the indentation level, either way.
pub const MAX_LEVEL: i32 = 1000000;

/// Writes text, indenting the first text of each line by the current level.
pub struct Writer {
    indent_type: Vec<char>,
    indent_width: i32,
    linefeed: Vec<char>,
    indent_level: i32,
    line_start: bool,
    w: Vec<char>,
}

pub struct WriterV {
    pub indent_type: Seq<char>,
    pub indent_width: int,
    pub linefeed: Seq<char>,
    pub indent_level: int,
    pub line_start: bool,
    pub out: Seq<char>,
}

impl View for Writer {
    type V = WriterV;

    closed spec fn view(&self) -> WriterV {
        WriterV {
            indent_type: self.indent_type@,
            indent_width: self.indent_width as int,
            linefeed: self.linefeed@,
            indent_level: self.indent_level as int,
            line_start: self.line_start,
            out: self.w@,
        }
    }
}

/// `s` repeated `n` times.
pub open spec fn repeat(s: Seq<char>, n: int) -> Seq<char>
    decreases n,
{
    if n <= 0 {
        Seq::empty()
    } else {
        repeat(s, n - 1) + s
    }
}

/// The indentation of a line at the writer's level.
pub open spec fn indent_string(v: WriterV) -> Seq<char> {
    repeat(v.indent_type, v.indent_width * v.indent_level)
}

/// The writer after `text` is written.
pub open spec fn after_raw(v: WriterV, text: Seq<char>) -> WriterV {
    if text.len() == 0 {
        v
    } else {
        WriterV {
            out: v.out + (if v.line_start {
                indent_string(v)
            } else {
                Seq::empty()
            }) + text,
            line_start: false,
            ..v
        }
    }
}

impl Writer {
    /// Whether the indentation level stays within bounds.
    pub closed spec fn wf(&self) -> bool {
        self.indent_width == 2 && -MAX_LEVEL <= self.indent_level <= MAX_LEVEL
    }

    /// A writer that appends to `writer`: two spaces per level, `\n` line ends, at level 0 and
    /// at the start of a line.
    pub fn new(writer: Vec<char>) -> (r: Writer)
        ensures
            r.wf(),
            r@ == (WriterV { indent_type: seq![' '], indent_width: 2, linefeed: seq!['\n'], indent_level: 0, line_start: true, out: writer@ }),
    {
        let r = Writer { indent_type: vec![' '], indent_width: 2, linefeed: vec!['\n'], indent_level: 0, line_start: true, w: writer };
        assert(r.indent_type@ =~= seq![' ']);
        assert(r.linefeed@ =~= seq!['\n']);
        r
    }

    /// The text written so far.
    pub fn output(&self) -> (r: &Vec<char>)
        ensures
            r@ == self@.out,
    {
        &self.w
    }

    /// Writes a space.
    pub fn write_space(&mut self)
        requires
            old(self).wf(),
        ensures
            final(self).wf(),
            final(self)@ == after_raw(old(self)@, seq![' ']),
    {
        let s = vec![' '];
        assert(s@ =~= seq![' ']);
        self.write_raw(&s);
    }

    /// Ends the line, unless the writer stands at the start of one.
    pub fn write_newline(&mut self)
        requires
            old(self).wf(),
        ensures
            final(self).wf(),
            old(self)@.line_start ==> final(self)@ == old(self)@,
            !old(self)@.line_start ==> final(self)@ == (WriterV { line_start: true, ..after_raw(old(self)@, old(self)@.linefeed) }),
    {
        if !self.line_start {
            let lf = crate::text::copy_chars(&self.linefeed);
            self.write_raw(&lf);
            self.line_start = true;
        }
    }

    /// Writes the indentation of the current level.
    pub fn write_indent_string(&mut self)
        requires
            old(self).wf(),
        ensures
            final(self).wf(),
            final(self)@ == (WriterV { out: old(self)@.out + indent_string(old(self)@), ..old(self)@ }),
    {
        let n = self.indent_width * self.indent_level;
        let mut i: i32 = 0;
        let ghost start = self.w@;
        let t = crate::text::copy_chars(&self.indent_type);
        while i < n
            invariant
                self.wf(),
                n == self.indent_width * self.indent_level,
                t@ == self.indent_type@,
                0 <= i,
                n > 0 ==> i <= n,
                n <= 0 ==> i == 0,
                self.w@ == start + repeat(self.indent_type@, i as int),
                self.indent_type@ == old(self)@.indent_type,
                self.indent_width == old(self).indent_width,
                self.indent_level == old(self).indent_level,
                self.linefeed@ == old(self)@.linefeed,
                self.line_start == old(self).line_start,
                start == old(self)@.out,
            decreases n - i,
        {
            crate::text::append_chars(&mut self.w, &t);
            i += 1;
        }
        proof {
            if n <= 0 {
                assert(repeat(self.indent_type@, n as int) == Seq::<char>::empty());
                assert(repeat(self.indent_type@, i as int) == Seq::<char>::empty());
            }
        }
        assert(self@ == (WriterV { out: old(self)@.out + indent_string(old(self)@), ..old(self)@ }));
    }

    /// Writes `text`, indented first where it starts a line.
    pub fn write_raw(&mut self, text: &Vec<char>)
        requires
            old(self).wf(),
        ensures
            final(self).wf(),
            final(self)@ == after_raw(old(self)@, text@),
    {
        if text.len() > 0 {
            if self.line_start {
                self.write_indent_string();
                self.line_start = false;
            }
            crate::text::append_chars(&mut self.w, text);
            assert(self@.out =~= after_raw(old(self)@, text@).out);
        }
    }

    /// Goes one level deeper.
    pub fn increase_indent(&mut self)
        requires
            old(self).wf(),
            old(self)@.indent_level < MAX_LEVEL,
        ensures
            final(self).wf(),
            final(self)@ == (WriterV { indent_level: old(self)@.indent_level + 1, ..old(self)@ }),
    {
        self.indent_level += 1;
    }

    /// Goes one level back.
    pub fn decrease_indent(&mut self)
        requires
            old(self).wf(),
            old(self)@.indent_level > -MAX_LEVEL,
        ensures
            final(self).wf(),
            final(self)@ == (WriterV { indent_level: old(self)@.indent_level - 1, ..old(self)@ }),
    {
        self.indent_level -= 1;
    }
}

} // verus!
