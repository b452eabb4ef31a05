//! The commands sent to a Kakoune session.
//!
//! Each command is the text written to the standard input of `kak -p
//! <session>`; sending it is left to the caller.

use vstd::prelude::*;

use crate::range::{range_spans, RangeSpec, Span};
use crate::text::{debug_quoted, decimal, push_debug_quoted, push_decimal, range_text};

verus! {

/// What `kak -p` is given to run `command`, in the context of `buffer` when
/// there is one.
pub open spec fn command_text(buffer: Option<Seq<char>>, command: Seq<char>) -> Seq<char> {
    match buffer {
        Some(b) => "evaluate-commands -no-hooks -buffer "@ + b + " %[ "@ + command + " ]\n"@,
        None => "evaluate-commands -no-hooks %[ "@ + command + " ]\n"@,
    }
}

/// Each range quoted and followed by a space.
pub open spec fn ranges_text(rs: Seq<Span>) -> Seq<char>
    decreases rs.len(),
{
    if rs.len() == 0 {
        Seq::empty()
    } else {
        ranges_text(rs.drop_last()) + "'"@ + range_text(rs.last()) + "' "@
    }
}

/// The option command that sets the highlighted ranges of a buffer.
pub open spec fn highlight_command(rs: Seq<Span>) -> Seq<char> {
    "set-option buffer tree_sitter_ranges %val{timestamp} "@ + ranges_text(rs)
}

/// The command that logs `message` to the session's debug buffer.
pub open spec fn debug_command(message: Seq<char>) -> Seq<char> {
    "echo -debug %(kak-sitter: "@ + message + ")"@
}

/// The directory of the buffer numbered `n` under `buffers_dir`.
pub open spec fn buffer_dir_text(buffers_dir: Seq<char>, n: nat) -> Seq<char> {
    buffers_dir + "/"@ + decimal(n)
}

/// The file a buffer's content is written to, in its directory.
pub open spec fn content_file_text(dir: Seq<char>) -> Seq<char> {
    dir + "/content"@
}

/// The command that makes the session write a buffer to `file`.
pub open spec fn write_command(file: Seq<char>) -> Seq<char> {
    "write -force "@ + debug_quoted(file)
}

/// The place of `name` in `names`, where it occurs once.
pub open spec fn index_of(names: Seq<Seq<char>>, name: Seq<char>) -> nat {
    choose|n: nat| n < names.len() && names[n as int] == name
}

/// The place of a name in a list without repeats is where it stands.
pub proof fn lemma_index_of(names: Seq<Seq<char>>, n: int)
    requires
        distinct(names),
        0 <= n < names.len(),
    ensures
        index_of(names, names[n]) == n,
{
    let m = index_of(names, names[n]);
    assert(n as nat >= 0 && (n as nat) < names.len() && names[n as nat as int] == names[n]);
    if m != n {
        if m < n {
            assert(names[m as int] != names[n]);
        } else {
            assert(names[n] != names[m as int]);
        }
    }
}

/// No name occurs twice.
pub open spec fn distinct(names: Seq<Seq<char>>) -> bool {
    forall|i: int, j: int|
        #![trigger names[i], names[j]]
        0 <= i < j < names.len() ==> names[i] != names[j]
}

/// A Kakoune session, and the buffers whose content it has been asked to
/// save; each buffer's directory is numbered by its place in that list.
pub struct Kakoune {
    session: String,
    buffers: Vec<String>,
}

/// Where a buffer's content is saved, and the command that saves it.
#[derive(Clone, Debug, PartialEq, Eq)]
pub struct SavedBuffer {
    /// The buffer's directory.
    pub dir: String,
    /// Whether the directory is new, and has to be created.
    pub created: bool,
    /// The file the content is written to.
    pub content_file: String,
    /// The command that writes it.
    pub command: String,
}

impl Kakoune {
    /// The names of the saved buffers, in order of their numbers.
    pub closed spec fn buffer_names(&self) -> Seq<Seq<char>> {
        self.buffers@.map_values(|b: String| b@)
    }

    pub closed spec fn session_name(&self) -> Seq<char> {
        self.session@
    }

    /// No buffer is numbered twice.
    pub open spec fn wf(&self) -> bool {
        distinct(self.buffer_names())
    }

    /// Creates a new `Kakoune`.
    pub fn new(session: String) -> (r: Kakoune)
        ensures
            r.wf(),
            r.session_name() == session@,
            r.buffer_names() == Seq::<Seq<char>>::empty(),
    {
        let r = Kakoune { session, buffers: Vec::new() };
        assert(r.buffer_names() =~= Seq::<Seq<char>>::empty());
        r
    }

    /// The session's name, as `kak -p` takes it.
    pub fn session(&self) -> (r: &str)
        ensures
            r@ == self.session_name(),
    {
        self.session.as_str()
    }

    /// The command that sets the highlighted ranges of `buffer`.
    pub fn highlight(&self, buffer: &str, ranges: &Vec<RangeSpec>) -> (r: String)
        ensures
            r@ == command_text(Some(buffer@), highlight_command(range_spans(ranges@))),
    {
        let mut command = String::from_str("set-option buffer tree_sitter_ranges %val{timestamp} ");
        let mut i: usize = 0;
        while i < ranges.len()
            invariant
                i <= ranges.len(),
                command@ == "set-option buffer tree_sitter_ranges %val{timestamp} "@ + ranges_text(
                    range_spans(ranges@.take(i as int)),
                ),
            decreases ranges.len() - i,
        {
            let ghost before = command@;
            command.append("'");
            command.append(ranges[i].to_string().as_str());
            command.append("' ");
            proof {
                let taken = range_spans(ranges@.take(i + 1));
                assert(taken.drop_last() =~= range_spans(ranges@.take(i as int)));
                assert(taken.last() == ranges@[i as int]@);
                assert(command@ =~= "set-option buffer tree_sitter_ranges %val{timestamp} "@
                    + ranges_text(taken));
            }
            i = i + 1;
        }
        assert(ranges@.take(ranges.len() as int) =~= ranges@);
        Self::command(Some(buffer), command.as_str())
    }

    /// What `kak -p` is given to run `command`, in the context of `buffer`
    /// when there is one.
    pub fn command(buffer: Option<&str>, command: &str) -> (r: String)
        ensures
            r@ == command_text(
                match buffer {
                    Some(b) => Some(b@),
                    None => None,
                },
                command@,
            ),
    {
        match buffer {
            Some(b) => {
                let mut s = String::from_str("evaluate-commands -no-hooks -buffer ");
                s.append(b);
                s.append(" %[ ");
                s.append(command);
                s.append(" ]\n");
                s
            },
            None => {
                let mut s = String::from_str("evaluate-commands -no-hooks %[ ");
                s.append(command);
                s.append(" ]\n");
                s
            },
        }
    }

    /// The command that logs `message` to the session's debug buffer.
    pub fn debug(message: &str) -> (r: String)
        ensures
            r@ == command_text(None, debug_command(message@)),
    {
        let mut s = String::from_str("echo -debug %(kak-sitter: ");
        s.append(message);
        s.append(")");
        Self::command(None, s.as_str())
    }

    /// The number of `buffer`'s directory; a buffer seen for the first time
    /// gets the next number.
    pub fn buffer_dir(&mut self, buffer: &str) -> (r: (usize, bool))
        requires
            old(self).wf(),
        ensures
            final(self).wf(),
            final(self).session_name() == old(self).session_name(),
            ({
                let (n, created) = r;
                &&& created <==> !old(self).buffer_names().contains(buffer@)
                &&& created ==> n == old(self).buffer_names().len()
                    && final(self).buffer_names() == old(self).buffer_names().push(buffer@)
                &&& !created ==> final(self).buffer_names() == old(self).buffer_names()
                &&& n < final(self).buffer_names().len()
                &&& final(self).buffer_names()[n as int] == buffer@
                &&& n == index_of(final(self).buffer_names(), buffer@)
            }),
    {
        let key = String::from_str(buffer);
        let mut i: usize = 0;
        while i < self.buffers.len()
            invariant
                i <= self.buffers.len(),
                key@ == buffer@,
                self.wf(),
                forall|k: int| 0 <= k < i ==> self.buffers@[k]@ != buffer@,
            decreases self.buffers.len() - i,
        {
            if self.buffers[i] == key {
                proof {
                    assert(self.buffer_names()[i as int] == buffer@);
                    lemma_index_of(self.buffer_names(), i as int);
                }
                return (i, false);
            }
            i = i + 1;
        }
        let n = self.buffers.len();
        let ghost names = self.buffer_names();
        assert(!names.contains(buffer@)) by {
            if names.contains(buffer@) {
                let k = choose|k: int| 0 <= k < names.len() && names[k] == buffer@;
                assert(self.buffers@[k]@ == buffer@);
            }
        }
        self.buffers.push(key);
        proof {
            assert(self.buffer_names() =~= names.push(buffer@));
            assert forall|a: int, b: int|
                #![trigger self.buffer_names()[a], self.buffer_names()[b]]
                0 <= a < b < self.buffer_names().len() implies self.buffer_names()[a]
                != self.buffer_names()[b] by {
                if b == names.len() {
                    assert(names[a] != buffer@);
                } else {
                    assert(names[a] != names[b]);
                }
            }
        }
        proof {
            lemma_index_of(self.buffer_names(), n as int);
        }
        (n, true)
    }

    /// Where `buffer`'s content is saved under `buffers_dir`, and the command
    /// that writes it there.
    pub fn save_buffer(&mut self, buffers_dir: &str, buffer: &str) -> (r: SavedBuffer)
        requires
            old(self).wf(),
        ensures
            final(self).wf(),
            final(self).session_name() == old(self).session_name(),
            final(self).buffer_names().contains(buffer@),
            old(self).buffer_names().contains(buffer@) ==> final(self).buffer_names()
                == old(self).buffer_names(),
            !old(self).buffer_names().contains(buffer@) ==> final(self).buffer_names()
                == old(self).buffer_names().push(buffer@),
            r.created <==> !old(self).buffer_names().contains(buffer@),
            r.dir@ == buffer_dir_text(buffers_dir@, index_of(final(self).buffer_names(), buffer@)),
            r.content_file@ == content_file_text(r.dir@),
            r.command@ == command_text(Some(buffer@), write_command(r.content_file@)),
    {
        let (n, created) = self.buffer_dir(buffer);
        let mut dir = String::from_str(buffers_dir);
        dir.append("/");
        push_decimal(&mut dir, n);
        let mut content_file = dir.clone();
        content_file.append("/content");
        let mut write = String::from_str("write -force ");
        push_debug_quoted(&mut write, content_file.as_str());
        let command = Self::command(Some(buffer), write.as_str());
        proof {
            lemma_index_of(self.buffer_names(), n as int);
        }
        SavedBuffer { dir, created, content_file, command }
    }
}

} // verus!
