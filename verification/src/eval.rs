//! Values that a run of the scripts computed.
use crate::model::{find_key, value_of};
use crate::text::same;
use vstd::prelude::*;

verus! {

/// Which tick of a run a value is read from.
#[derive(Clone, Copy, Debug, PartialEq, Eq, Structural)]
pub enum TickPolicy {
    First,
    Last,
}

/// Where a run's inputs come from.
#[derive(Debug)]
pub enum Provenance {
    /// No scenario and no log: every input has its default.
    OfflineDefault,
    Scenario(String),
    Log(String),
}

/// The value line of one expression of a script.
#[derive(Debug)]
pub struct ExprLine {
    pub script: String,
    /// Where the expression starts.
    pub offset: usize,
    pub line: String,
}

/// What a [`ExprLine`] stands for.
pub struct ExprLineView {
    pub script: Seq<char>,
    pub offset: usize,
    pub line: Seq<char>,
}

impl DeepView for ExprLine {
    type V = ExprLineView;

    open spec fn deep_view(&self) -> ExprLineView {
        ExprLineView {
            script: self.script.deep_view(),
            offset: self.offset,
            line: self.line.deep_view(),
        }
    }
}

/// What a run computed, rendered.
#[derive(Debug)]
pub struct Trace {
    /// The values of each channel, one for each tick.
    pub channels: Vec<(String, Vec<String>)>,
    /// The line that describes the value of each channel.
    pub channel_lines: Vec<(String, String)>,
    /// The lines that describe the values of expressions.
    pub expr_lines: Vec<ExprLine>,
}

/// What a [`Trace`] stands for.
pub struct TraceView {
    pub channels: Seq<(Seq<char>, Seq<Seq<char>>)>,
    pub channel_lines: Seq<(Seq<char>, Seq<char>)>,
    pub expr_lines: Seq<ExprLineView>,
}

impl DeepView for Trace {
    type V = TraceView;

    open spec fn deep_view(&self) -> TraceView {
        TraceView {
            channels: self.channels.deep_view(),
            channel_lines: self.channel_lines.deep_view(),
            expr_lines: self.expr_lines.deep_view(),
        }
    }
}

impl TraceView {
    /// The value of a channel at the tick.
    pub open spec fn value(self, path: Seq<char>, tick: TickPolicy) -> Option<Seq<char>> {
        match value_of(self.channels, path) {
            Some(column) => if column.len() == 0 {
                None
            } else {
                match tick {
                    TickPolicy::First => Some(column.first()),
                    TickPolicy::Last => Some(column.last()),
                }
            },
            None => None,
        }
    }

    /// The value line of a channel.
    pub open spec fn channel_line(self, path: Seq<char>) -> Option<Seq<char>> {
        value_of(self.channel_lines, path)
    }

    /// The value line of the expression that starts at `offset`.
    pub open spec fn expr_line(self, script: Seq<char>, offset: usize) -> Option<Seq<char>> {
        expr_line_at(self.expr_lines, script, offset, 0)
    }
}

/// The first line from index `i` on for that place.
pub open spec fn expr_line_at(s: Seq<ExprLineView>, script: Seq<char>, offset: usize, i: int) -> Option<
    Seq<char>,
>
    decreases s.len() - i,
{
    if i < 0 || i >= s.len() {
        None
    } else if s[i].script == script && s[i].offset == offset {
        Some(s[i].line)
    } else {
        expr_line_at(s, script, offset, i + 1)
    }
}

impl Trace {
    pub fn value(&self, path: &str, tick: TickPolicy) -> (r: Option<&String>)
        ensures
            r.deep_view() == self.deep_view().value(path@, tick),
    {
        match find_key(&self.channels, path) {
            Some(i) => {
                assert(self.channels.deep_view()[i as int] == self.channels@[i as int].deep_view());
                let column = &self.channels[i].1;
                if column.len() == 0 {
                    None
                } else {
                    match tick {
                        TickPolicy::First => Some(&column[0]),
                        TickPolicy::Last => Some(&column[column.len() - 1]),
                    }
                }
            },
            None => None,
        }
    }

    pub fn channel_line(&self, path: &str) -> (r: Option<&String>)
        ensures
            r.deep_view() == self.deep_view().channel_line(path@),
    {
        match find_key(&self.channel_lines, path) {
            Some(i) => {
                assert(self.channel_lines.deep_view()[i as int]
                    == self.channel_lines@[i as int].deep_view());
                Some(&self.channel_lines[i].1)
            },
            None => None,
        }
    }

    pub fn expr_line(&self, script: &str, offset: usize) -> (r: Option<&String>)
        ensures
            r.deep_view() == self.deep_view().expr_line(script@, offset),
    {
        let ghost s = self.deep_view().expr_lines;
        let mut i: usize = 0;
        while i < self.expr_lines.len()
            invariant
                i <= self.expr_lines@.len(),
                s == self.deep_view().expr_lines,
                self.deep_view().expr_line(script@, offset) == expr_line_at(
                    s,
                    script@,
                    offset,
                    i as int,
                ),
            decreases self.expr_lines@.len() - i,
        {
            assert(s[i as int] == self.expr_lines@[i as int].deep_view());
            let e = &self.expr_lines[i];
            if e.offset == offset && same(e.script.as_str(), script) {
                return Some(&e.line);
            }
            i = i + 1;
        }
        None
    }
}

} // verus!
