//! Where the log lives, and how its file is laid out: one JSON record per line.

use vstd::prelude::*;
use crate::error::Error;

verus! {

/// The value of the `XDG_DATA_HOME` environment variable.
#[derive(Clone, Debug, PartialEq)]
pub enum DataHome {
    Value(String),
    NotPresent,
    /// Present, but not valid unicode; holds the description of that error.
    NotUnicode(String),
}

/// `base` with `component` (a relative path) pushed on, as a Unix `PathBuf`
/// does: a separator goes between them unless `base` is empty or ends in one.
pub open spec fn join_path(base: Seq<char>, component: Seq<char>) -> Seq<char> {
    if base.len() == 0 || base.last() == '/' {
        base + component
    } else {
        base + "/"@ + component
    }
}

/// The directory that the log lives in, `attendance-cli` under `XDG_DATA_HOME`
/// or else under `.local/share` in the home directory; or the message of the
/// I/O error that stops it.
pub open spec fn directory_of(data_home: DataHome, home: Option<String>) -> Result<Seq<char>, Seq<char>> {
    match data_home {
        DataHome::Value(value) => Ok(join_path(value@, "attendance-cli"@)),
        DataHome::NotPresent => match home {
            Some(h) => Ok(join_path(join_path(h@, ".local/share"@), "attendance-cli"@)),
            None => Err("Failed to construct repository file directory"@),
        },
        DataHome::NotUnicode(e) => Err("Invalid `XDG_DATA_HOME` value: "@ + e@),
    }
}

/// Appends `component` to the path `base` (see [`join_path`]).
pub fn join(base: &str, component: &str) -> (p: String)
    ensures
        p@ == join_path(base@, component@),
{
    let n = base.unicode_len();
    let mut p = String::from_str(base);
    if n > 0 && base.get_char(n - 1) != '/' {
        p.append("/");
    }
    p.append(component);
    p
}

/// The log's file, `attendance.log`, and the directory that holds it.
#[derive(Debug)]
pub struct FileRepository {
    directory: String,
    path: String,
}

impl FileRepository {
    /// The repository in the directory that the environment gives (see [`directory_of`]).
    pub fn new(data_home: DataHome, home: Option<String>) -> (res: Result<FileRepository, Error>)
        ensures
            match (res, directory_of(data_home, home)) {
                (Ok(r), Ok(dir)) => r.directory_spec() == dir && r.path_spec() == join_path(dir, "attendance.log"@),
                (Err(Error::Io(m)), Err(message)) => m@ == message,
                _ => false,
            },
    {
        match Self::directory(data_home, home) {
            Ok(dir) => {
                let path = join(dir.as_str(), "attendance.log");
                Ok(FileRepository { directory: dir, path })
            },
            Err(e) => Err(e),
        }
    }

    fn directory(data_home: DataHome, home: Option<String>) -> (res: Result<String, Error>)
        ensures
            match (res, directory_of(data_home, home)) {
                (Ok(d), Ok(dir)) => d@ == dir,
                (Err(Error::Io(m)), Err(message)) => m@ == message,
                _ => false,
            },
    {
        match data_home {
            DataHome::Value(value) => Ok(join(value.as_str(), "attendance-cli")),
            DataHome::NotPresent => match home {
                Some(h) => {
                    let share = join(h.as_str(), ".local/share");
                    Ok(join(share.as_str(), "attendance-cli"))
                },
                None => Err(Error::Io(String::from_str("Failed to construct repository file directory"))),
            },
            DataHome::NotUnicode(e) => {
                let mut m = String::from_str("Invalid `XDG_DATA_HOME` value: ");
                m.append(e.as_str());
                Err(Error::Io(m))
            },
        }
    }

    pub closed spec fn directory_spec(&self) -> Seq<char> {
        self.directory@
    }

    pub closed spec fn path_spec(&self) -> Seq<char> {
        self.path@
    }

    pub fn directory_path(&self) -> (d: &str)
        ensures
            d@ == self.directory_spec(),
    {
        self.directory.as_str()
    }

    pub fn path(&self) -> (p: &str)
        ensures
            p@ == self.path_spec(),
    {
        self.path.as_str()
    }
}

/// The line without the carriage return that ends it, if one does.
pub open spec fn strip_cr(line: Seq<u8>) -> Seq<u8> {
    if line.len() > 0 && line.last() == 13 { line.drop_last() } else { line }
}

/// The position of the first newline at or after `i`, or the end.
pub open spec fn next_newline(b: Seq<u8>, i: int) -> int
    decreases b.len() - i,
{
    if i >= b.len() {
        b.len() as int
    } else if b[i] == 10 {
        i
    } else {
        next_newline(b, i + 1)
    }
}

pub proof fn lemma_next_newline(b: Seq<u8>, i: int)
    requires
        0 <= i,
    ensures
        i <= next_newline(b, i) || i > b.len(),
        next_newline(b, i) <= b.len(),
        next_newline(b, i) < b.len() ==> b[next_newline(b, i)] == 10,
        forall|k: int| i <= k < next_newline(b, i) ==> b[k] != 10,
    decreases b.len() - i,
{
    if i < b.len() && b[i] != 10 {
        lemma_next_newline(b, i + 1);
    }
}

/// The lines from position `i` on, as a buffered reader reads them: each ends
/// at a newline, which is dropped with a carriage return just before it; a
/// last line without a newline is kept as it is.
pub open spec fn lines_from(b: Seq<u8>, i: int) -> Seq<Seq<u8>>
    decreases b.len() - i,
{
    if i < 0 || i >= b.len() {
        Seq::empty()
    } else {
        let j = next_newline(b, i);
        proof { lemma_next_newline(b, i); }
        if j >= b.len() {
            seq![b.subrange(i, b.len() as int)]
        } else {
            seq![strip_cr(b.subrange(i, j))] + lines_from(b, j + 1)
        }
    }
}

/// The lines of a file's contents.
pub open spec fn lines_of(b: Seq<u8>) -> Seq<Seq<u8>> {
    lines_from(b, 0)
}

/// A line as it is written to the file: the content and a newline.
pub open spec fn framed(content: Seq<u8>) -> Seq<u8> {
    content.push(10)
}

/// The contents written line after line.
pub open spec fn framed_all(contents: Seq<Seq<u8>>) -> Seq<u8>
    decreases contents.len(),
{
    if contents.len() == 0 {
        Seq::empty()
    } else {
        framed(contents[0]) + framed_all(contents.drop_first())
    }
}

/// Content that a line can hold unchanged: no newline, and no carriage return at its end.
pub open spec fn is_line_content(content: Seq<u8>) -> bool {
    &&& forall|k: int| 0 <= k < content.len() ==> content[k] != 10
    &&& !(content.len() > 0 && content.last() == 13)
}

fn copy_range(b: &Vec<u8>, start: usize, end: usize) -> (v: Vec<u8>)
    requires
        start <= end <= b@.len(),
    ensures
        v@ == b@.subrange(start as int, end as int),
{
    let mut v: Vec<u8> = Vec::new();
    let mut k = start;
    while k < end
        invariant
            start <= k <= end <= b@.len(),
            v@ == b@.subrange(start as int, k as int),
        decreases end - k,
    {
        v.push(b[k]);
        k = k + 1;
        proof { assert(v@ =~= b@.subrange(start as int, k as int)); }
    }
    v
}

/// The file's contents split into lines (see [`lines_from`]).
pub fn split_lines(bytes: &Vec<u8>) -> (lines: Vec<Vec<u8>>)
    ensures
        lines@.map_values(|l: Vec<u8>| l@) == lines_of(bytes@),
{
    let ghost b = bytes@;
    let n = bytes.len();
    let mut lines: Vec<Vec<u8>> = Vec::new();
    let mut start: usize = 0;
    let mut k: usize = 0;
    while k < n
        invariant
            b == bytes@,
            n == b.len(),
            start <= k <= n,
            forall|x: int| start <= x < k ==> b[x] != 10,
            lines_of(b) == lines@.map_values(|l: Vec<u8>| l@) + lines_from(b, start as int),
        decreases n - k,
    {
        if bytes[k] == 10 {
            proof {
                lemma_next_newline(b, start as int);
                if next_newline(b, start as int) < k {
                    assert(b[next_newline(b, start as int)] == 10);
                }
                assert(next_newline(b, start as int) == k);
            }
            let mut line = copy_range(bytes, start, k);
            if line.len() > 0 && line[line.len() - 1] == 13 {
                line.pop();
            }
            let ghost before = lines@.map_values(|l: Vec<u8>| l@);
            proof {
                assert(line@ == strip_cr(b.subrange(start as int, k as int)));
            }
            lines.push(line);
            proof {
                assert(lines@.map_values(|l: Vec<u8>| l@) =~= before.push(strip_cr(b.subrange(start as int, k as int))));
                assert(lines_from(b, start as int) == seq![strip_cr(b.subrange(start as int, k as int))] + lines_from(b, k + 1));
                assert(lines_of(b) =~= lines@.map_values(|l: Vec<u8>| l@) + lines_from(b, k + 1));
            }
            start = k + 1;
        }
        k = k + 1;
    }
    if start < n {
        proof {
            lemma_next_newline(b, start as int);
            if next_newline(b, start as int) < n {
                assert(b[next_newline(b, start as int)] == 10);
            }
        }
        let line = copy_range(bytes, start, n);
        let ghost before = lines@.map_values(|l: Vec<u8>| l@);
        lines.push(line);
        proof {
            assert(lines@.map_values(|l: Vec<u8>| l@) =~= before.push(b.subrange(start as int, n as int)));
            assert(lines_of(b) =~= lines@.map_values(|l: Vec<u8>| l@));
        }
    } else {
        proof { assert(lines_of(b) =~= lines@.map_values(|l: Vec<u8>| l@)); }
    }
    lines
}

/// A line to write: the content and a newline.
pub fn frame_line(content: Vec<u8>) -> (line: Vec<u8>)
    ensures
        line@ == framed(content@),
{
    let mut line = content;
    line.push(10);
    line
}

proof fn lemma_next_newline_shift(p: Seq<u8>, r: Seq<u8>, i: int)
    requires
        0 <= i,
    ensures
        next_newline(p + r, p.len() + i) == p.len() + next_newline(r, i),
    decreases r.len() - i,
{
    if i < r.len() && r[i] != 10 {
        assert((p + r)[p.len() + i] == r[i]);
        lemma_next_newline_shift(p, r, i + 1);
    } else if i < r.len() {
        assert((p + r)[p.len() + i] == r[i]);
    }
}

proof fn lemma_lines_shift(p: Seq<u8>, r: Seq<u8>, i: int)
    requires
        0 <= i,
    ensures
        lines_from(p + r, p.len() + i) == lines_from(r, i),
    decreases r.len() - i,
{
    let b = p + r;
    if i < r.len() {
        lemma_next_newline_shift(p, r, i);
        lemma_next_newline(r, i);
        let j = next_newline(r, i);
        if j >= r.len() {
            assert(b.subrange(p.len() + i, b.len() as int) =~= r.subrange(i, r.len() as int));
        } else {
            assert(b.subrange(p.len() + i, p.len() + j) =~= r.subrange(i, j));
            lemma_lines_shift(p, r, j + 1);
        }
    }
}

/// Reading back what was written line by line gives the contents written,
/// when none of them holds a newline or ends in a carriage return.
pub proof fn lemma_read_back_written(contents: Seq<Seq<u8>>)
    requires
        forall|k: int| 0 <= k < contents.len() ==> is_line_content(#[trigger] contents[k]),
    ensures
        lines_of(framed_all(contents)) == contents,
    decreases contents.len(),
{
    if contents.len() > 0 {
        let c = contents[0];
        let rest = contents.drop_first();
        assert forall|k: int| 0 <= k < rest.len() implies is_line_content(#[trigger] rest[k]) by {
            assert(rest[k] == contents[k + 1]);
        }
        lemma_read_back_written(rest);
        let b = framed_all(contents);
        let r = framed_all(rest);
        assert(b == framed(c) + r);
        lemma_next_newline(b, 0);
        assert(is_line_content(c));
        if next_newline(b, 0) < c.len() {
            assert(b[next_newline(b, 0)] == c[next_newline(b, 0)]);
        }
        assert(b[c.len() as int] == 10);
        assert(next_newline(b, 0) == c.len());
        assert(b.subrange(0, c.len() as int) =~= c);
        lemma_lines_shift(framed(c), r, 0);
        assert(lines_of(b) == seq![c] + lines_from(b, c.len() as int + 1));
        assert(lines_of(b) =~= contents);
    } else {
        assert(framed_all(contents) =~= Seq::<u8>::empty());
    }
}

} // verus!
