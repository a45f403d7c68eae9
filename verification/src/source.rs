use vstd::prelude::*;
use crate::decimal::{nat_text, usize_text};
use crate::text::{chars_of, concat_str};
use vstd::string::StringSliceAdditionalSpecFns;
use crate::scan_spec::{
    consumed, cursor_ok, lemma_read, read, skip_block_comment, skip_filler,
    skip_line_comment,
};

verus! {

/// The abstract state of a source file being read.
pub struct InFileView {
    pub name: Seq<char>,
    pub num_chars: nat,
    pub contents: Seq<char>,
    pub pos: nat,
    pub line: nat,
}

/// A source file held in memory, with a read position and a line counter.
pub struct inFile {
    fileName: String,
    fileContents: Vec<char>,
    lineCnt: usize,
    numChars: usize,
    currentCharIndex: usize,
}

impl View for inFile {
    type V = InFileView;

    closed spec fn view(&self) -> InFileView {
        InFileView {
            name: self.fileName@,
            num_chars: self.numChars as nat,
            contents: self.fileContents@,
            pos: self.currentCharIndex as nat,
            line: self.lineCnt as nat,
        }
    }
}

impl inFile {
    /// The read position never passes the end, and a length leaves room to count in `usize`.
    pub open spec fn wf(&self) -> bool {
        &&& self@.pos <= self@.contents.len()
        &&& self@.contents.len() < usize::MAX
    }

    /// Opens the given contents for reading at line 1; `numChars` is their length in bytes.
    pub fn new(fileName: &str, fileContents: &str) -> (r: inFile)
        requires
            fileContents@.len() < usize::MAX,
            fileContents.spec_bytes().len() <= usize::MAX,
        ensures
            r.wf(),
            r@ == (InFileView {
                name: fileName@,
                num_chars: fileContents.spec_bytes().len(),
                contents: fileContents@,
                pos: 0,
                line: 1,
            }),
    {
        let numChars = fileContents.len();
        inFile {
            fileName: String::from_str(fileName),
            lineCnt: 1,
            currentCharIndex: 0,
            fileContents: chars_of(fileContents),
            numChars,
        }
    }

    /// The two lines that describe the file: its name and its line count.
    pub fn printInfo(&self) -> (r: (String, String))
        ensures
            r.0@ == "File Name: "@ + self@.name,
            r.1@ == "Lines: "@ + nat_text(self@.line),
    {
        (concat_str("File Name: ", self.fileName.as_str()), concat_str("Lines: ", usize_text(self.lineCnt).as_str()))
    }

    /// The name of the file.
    pub fn fileName(&self) -> (r: &String)
        ensures
            r@ == self@.name,
    {
        &self.fileName
    }

    /// The length of the contents in bytes.
    pub fn numChars(&self) -> (r: usize)
        ensures
            r == self@.num_chars,
    {
        self.numChars
    }

    /// The current line number.
    pub fn lineCnt(&self) -> (r: usize)
        ensures
            r == self@.line,
    {
        self.lineCnt
    }

    /// The index of the next character to be read.
    pub fn position(&self) -> (r: usize)
        ensures
            r == self@.pos,
    {
        self.currentCharIndex
    }

    /// Reads the next character, or gives `None` at the end (where the position stays).
    pub fn getChar(&mut self) -> (r: Option<char>)
        requires
            old(self).wf(),
        ensures
            final(self).wf(),
            final(self)@.contents == old(self)@.contents,
            final(self)@.line == old(self)@.line,
            final(self)@.name == old(self)@.name,
            final(self)@.num_chars == old(self)@.num_chars,
            old(self)@.pos < old(self)@.contents.len() ==> r == Some(old(self)@.contents[old(self)@.pos as int])
                && final(self)@.pos == old(self)@.pos + 1,
            old(self)@.pos >= old(self)@.contents.len() ==> r is None && final(self)@.pos == old(self)@.pos,
    {
        if self.currentCharIndex < self.fileContents.len() {
            let c = self.fileContents[self.currentCharIndex];
            self.currentCharIndex = self.currentCharIndex + 1;
            Some(c)
        } else {
            None
        }
    }

    /// Steps the read position back by one character.
    pub fn unGetChar(&mut self)
        requires
            old(self).wf(),
            old(self)@.pos > 0,
        ensures
            final(self).wf(),
            final(self)@ == (InFileView { pos: (old(self)@.pos - 1) as nat, ..old(self)@ }),
    {
        self.currentCharIndex = self.currentCharIndex - 1;
    }

    /// Counts one more line.
    pub fn incLineCnt(&mut self)
        requires
            old(self).wf(),
            old(self)@.line < usize::MAX,
        ensures
            final(self).wf(),
            final(self)@ == (InFileView { line: old(self)@.line + 1, ..old(self)@ }),
    {
        self.lineCnt = self.lineCnt + 1;
    }

    /// Reads on from the position and skips filler characters, counting newlines; gives the
    /// first other character read, or `None` at the end.
    pub fn skip_filler(&mut self) -> (cur: Option<char>)
        requires
            old(self).wf(),
            old(self)@.line <= 1 + old(self)@.pos,
        ensures
            final(self).wf(),
            skip_filler(
                old(self)@.contents,
                read(old(self)@.contents, old(self)@.pos).1,
                read(old(self)@.contents, old(self)@.pos).0,
                old(self)@.line,
            ) == (final(self)@.pos, cur, final(self)@.line),
            final(self)@ == (InFileView { pos: final(self)@.pos, line: final(self)@.line, ..old(self)@ }),
            cursor_ok(final(self)@.contents, final(self)@.pos, cur),
            final(self)@.line <= 1 + consumed(final(self)@.pos, cur),
            consumed(final(self)@.pos, cur) >= old(self)@.pos,
    {
        let ghost s = self@.contents;
        let ghost (c0, p0) = read(s, self@.pos);
        proof {
            lemma_read(s, self@.pos);
        }
        let mut currChar = self.getChar();
        loop
            invariant
                self.wf(),
                self@ == (InFileView { pos: self@.pos, line: self@.line, ..old(self)@ }),
                s == self@.contents,
                cursor_ok(s, self@.pos, currChar),
                (c0, p0) == read(s, old(self)@.pos),
                consumed(self@.pos, currChar) >= old(self)@.pos,
                skip_filler(s, p0, c0, old(self)@.line) == skip_filler(s, self@.pos, currChar, self@.line),
                self@.line <= 1 + consumed(self@.pos, currChar),
            decreases 2 * (s.len() - self@.pos) + (if currChar is Some { 1int } else { 0int }),
        {
            match currChar {
                Some(c) => {
                    if c == '\n' || c == '\t' || c == '\r' || c == ' ' {
                        if c == '\n' {
                            self.incLineCnt();
                        }
                        currChar = self.getChar();
                    } else {
                        return currChar;
                    }
                },
                None => {
                    return currChar;
                },
            }
        }
    }

    /// Skips the rest of a line comment, the cursor being on the comment's second `/`; the
    /// newline that ends it is counted and given back as the current character.
    pub fn skip_line_comment(&mut self, cur: Option<char>) -> (r: Option<char>)
        requires
            old(self).wf(),
            cursor_ok(old(self)@.contents, old(self)@.pos, cur),
            cur != Some('\n'),
            old(self)@.line <= 1 + consumed(old(self)@.pos, cur),
        ensures
            final(self).wf(),
            skip_line_comment(old(self)@.contents, old(self)@.pos, cur, old(self)@.line) == (final(self)@.pos, r, final(self)@.line),
            final(self)@ == (InFileView { pos: final(self)@.pos, line: final(self)@.line, ..old(self)@ }),
            cursor_ok(final(self)@.contents, final(self)@.pos, r),
            final(self)@.line <= 1 + final(self)@.pos,
            consumed(final(self)@.pos, r) >= consumed(old(self)@.pos, cur),
    {
        let ghost s = self@.contents;
        let mut currChar = cur;
        loop
            invariant
                self.wf(),
                self@ == (InFileView { pos: self@.pos, line: self@.line, ..old(self)@ }),
                s == self@.contents,
                cursor_ok(s, self@.pos, currChar),
                self@.line == old(self)@.line,
                skip_line_comment(s, old(self)@.pos, cur, old(self)@.line) == skip_line_comment(s, self@.pos, currChar, self@.line),
                consumed(self@.pos, currChar) >= consumed(old(self)@.pos, cur),
                self@.line <= 1 + consumed(self@.pos, currChar),
            decreases 2 * (s.len() - self@.pos) + (if currChar is Some { 1int } else { 0int }),
        {
            match currChar {
                Some(c) => {
                    if c == '\n' {
                        self.incLineCnt();
                        return currChar;
                    } else {
                        currChar = self.getChar();
                    }
                },
                None => {
                    return currChar;
                },
            }
        }
    }

    /// Skips the rest of a nested block comment, the cursor being on the `*` that opened it;
    /// gives the character read just after it closes (or `None` at the end), or `Err` where the
    /// input ends right after a `/` or a `*` inside the comment.
    pub fn skip_block_comment(&mut self, cur: Option<char>) -> (r: Result<Option<char>, ()>)
        requires
            old(self).wf(),
            cursor_ok(old(self)@.contents, old(self)@.pos, cur),
            old(self)@.line <= 1 + consumed(old(self)@.pos, cur),
        ensures
            final(self).wf(),
            final(self)@ == (InFileView { pos: final(self)@.pos, line: final(self)@.line, ..old(self)@ }),
            r is Err <==> skip_block_comment(old(self)@.contents, old(self)@.pos, cur, 1, old(self)@.line) is None,
            r matches Ok(c) ==> skip_block_comment(old(self)@.contents, old(self)@.pos, cur, 1, old(self)@.line)
                == Some((final(self)@.pos, c, final(self)@.line))
                && cursor_ok(final(self)@.contents, final(self)@.pos, c)
                && final(self)@.line <= 1 + consumed(final(self)@.pos, c)
                && consumed(final(self)@.pos, c) >= consumed(old(self)@.pos, cur),
            final(self)@.line <= 1 + final(self)@.pos,
    {
        let ghost s = self@.contents;
        let ghost target = skip_block_comment(s, old(self)@.pos, cur, 1, old(self)@.line);
        let mut currChar = cur;
        let mut nested: usize = 1;
        loop
            invariant
                self.wf(),
                self@ == (InFileView { pos: self@.pos, line: self@.line, ..old(self)@ }),
                s == self@.contents,
                cursor_ok(s, self@.pos, currChar),
                1 <= nested <= 1 + self@.pos,
                target == skip_block_comment(s, old(self)@.pos, cur, 1, old(self)@.line),
                target == skip_block_comment(s, self@.pos, currChar, nested as nat, self@.line),
                consumed(self@.pos, currChar) >= consumed(old(self)@.pos, cur),
                self@.line <= 1 + consumed(self@.pos, currChar),
            decreases 2 * (s.len() - self@.pos) + (if currChar is Some { 1int } else { 0int }),
        {
            match currChar {
                Some(c) => {
                    if c == '/' {
                        currChar = self.getChar();
                        let ch = match currChar {
                            Some(ch) => ch,
                            None => {
                                return Err(());
                            },
                        };
                        if ch == '*' {
                            nested = nested + 1;
                            currChar = self.getChar();
                        }
                    } else if c == '*' {
                        currChar = self.getChar();
                        let ch = match currChar {
                            Some(ch) => ch,
                            None => {
                                return Err(());
                            },
                        };
                        if ch == '/' {
                            nested = nested - 1;
                            if nested == 0 {
                                currChar = self.getChar();
                                return Ok(currChar);
                            } else {
                                currChar = self.getChar();
                            }
                        }
                    } else if c == '\n' {
                        self.incLineCnt();
                        currChar = self.getChar();
                    } else {
                        currChar = self.getChar();
                    }
                },
                None => {
                    return Ok(currChar);
                },
            }
        }
    }
}

} // verus!
