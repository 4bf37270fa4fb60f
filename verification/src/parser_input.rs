use vstd::prelude::*;
use vstd::slice::slice_subrange;
use vstd::string::StringSliceAdditionalSpecFns;
use crate::error::MyError;

verus! {

/// Capacity of the window that a file-backed input keeps in memory. No single
/// read may ask for more.
pub const BUF_SIZE: usize = 4096;

/// The byte that ends a line without belonging to it.
pub const NULL_CODE: u8 = 0;

/// Carriage return.
pub const CR_CODE: u8 = 13;

/// Line feed.
pub const LF_CODE: u8 = 10;

/// A seekable stream of bytes, seen only through bounded reads at an offset.
/// Nothing is known of what a read returns but that the source may answer
/// so: the input source is verified for every answer.
pub trait ByteSource {
    /// Whether the source may be asked.
    spec fn wf(&self) -> bool;

    /// Whether the source may answer a request for `capacity` bytes at
    /// `offset` with `loaded`.
    spec fn answers(&self, offset: u64, capacity: usize, loaded: Result<Vec<u8>, String>) -> bool;

    /// Up to `capacity` bytes of the stream from `offset` on, fewer at its
    /// end, or the reason why the stream could not be read.
    fn load(&self, offset: u64, capacity: usize) -> (loaded: Result<Vec<u8>, String>)
        requires
            self.wf(),
        ensures
            self.answers(offset, capacity, loaded),
    ;
}

/// A [`ByteSource`] given by a function from offset and capacity to bytes.
struct FnSource<F> {
    load: F,
}

impl<F> ByteSource for FnSource<F> where F: Fn(u64, usize) -> Result<Vec<u8>, String> {
    closed spec fn wf(&self) -> bool {
        forall|offset: u64, capacity: usize| call_requires(self.load, (offset, capacity))
    }

    closed spec fn answers(
        &self,
        offset: u64,
        capacity: usize,
        loaded: Result<Vec<u8>, String>,
    ) -> bool {
        call_ensures(self.load, (offset, capacity), loaded)
    }

    fn load(&self, offset: u64, capacity: usize) -> (loaded: Result<Vec<u8>, String>) {
        (self.load)(offset, capacity)
    }
}

/// The bytes that a window holds after the stream answered with `loaded`:
/// the bytes of the answer as far as the window has room, none after a
/// failure.
pub open spec fn loaded_window(loaded: Result<Vec<u8>, String>) -> Seq<u8> {
    match loaded {
        Ok(bytes) => if bytes@.len() <= BUF_SIZE {
            bytes@
        } else {
            bytes@.subrange(0, BUF_SIZE as int)
        },
        Err(_) => Seq::empty(),
    }
}

/// The text that parsers read: either wholly in memory, or a stream of which
/// a window of [`BUF_SIZE`] bytes is held at a time. `buffer_seek` is the
/// stream offset of the window's first byte and `buffer_read` the number of
/// bytes of `buffer` that are valid.
pub enum ParserInput {
    Text(Vec<u8>),
    File { reader: Box<dyn ByteSource>, buffer: Vec<u8>, buffer_seek: u64, buffer_read: usize },
}

/// The line that starts at `index`: bytes up to and including the first line
/// feed; carriage returns are kept, and after one the line ends before the
/// next byte that is neither. A zero byte or the end of the text ends it too.
pub open spec fn line_from(bytes: Seq<u8>, index: int, after_cr: bool) -> Seq<u8>
    decreases bytes.len() - index,
{
    if index < 0 || index >= bytes.len() {
        Seq::empty()
    } else if bytes[index] == NULL_CODE {
        Seq::empty()
    } else if bytes[index] == LF_CODE {
        seq![LF_CODE]
    } else if bytes[index] == CR_CODE {
        seq![CR_CODE] + line_from(bytes, index + 1, true)
    } else if after_cr {
        Seq::empty()
    } else {
        seq![bytes[index]] + line_from(bytes, index + 1, false)
    }
}

/// How a scan for the line from `index` on leaves `bytes`: `None` where the
/// line ends within them, and otherwise whether the last byte was a carriage
/// return, for the scan to go on in the bytes that follow.
pub open spec fn line_open(bytes: Seq<u8>, index: int, after_cr: bool) -> Option<bool>
    decreases bytes.len() - index,
{
    if index < 0 || index >= bytes.len() {
        Some(after_cr)
    } else if bytes[index] == NULL_CODE {
        None
    } else if bytes[index] == LF_CODE {
        None
    } else if bytes[index] == CR_CODE {
        line_open(bytes, index + 1, true)
    } else if after_cr {
        None
    } else {
        line_open(bytes, index + 1, false)
    }
}

/// Appends to `line` the part of a line that `bytes` hold from `index` on,
/// and says how the scan leaves them.
pub fn scan_line(bytes: &[u8], index: usize, after_cr: bool, line: &mut Vec<u8>) -> (open: Option<
    bool,
>)
    ensures
        final(line)@ == old(line)@ + line_from(bytes@, index as int, after_cr),
        open == line_open(bytes@, index as int, after_cr),
{
    let length = bytes.len();
    let mut curr_index: usize = index;
    let mut cr_flg = after_cr;
    let mut open: Option<bool> = None;
    let mut stopped = false;
    while !stopped
        invariant
            length == bytes@.len(),
            index <= curr_index,
            !stopped ==> old(line)@ + line_from(bytes@, index as int, after_cr) == line@
                + line_from(bytes@, curr_index as int, cr_flg),
            !stopped ==> line_open(bytes@, index as int, after_cr) == line_open(
                bytes@,
                curr_index as int,
                cr_flg,
            ),
            stopped ==> old(line)@ + line_from(bytes@, index as int, after_cr) == line@,
            stopped ==> open == line_open(bytes@, index as int, after_cr),
            !stopped ==> open is None,
        decreases
                if stopped {
                    0int
                } else if curr_index >= length {
                    1int
                } else {
                    length - curr_index + 1
                },
    {
        if curr_index >= length {
            proof {
                assert(line@ + Seq::<u8>::empty() =~= line@);
            }
            open = Some(cr_flg);
            stopped = true;
        } else {
            let byte: u8 = bytes[curr_index];
            if byte == NULL_CODE {
                proof {
                    assert(line@ + Seq::<u8>::empty() =~= line@);
                }
                stopped = true;
            } else if byte == LF_CODE {
                proof {
                    assert(line@ + seq![LF_CODE] =~= line@.push(LF_CODE));
                }
                line.push(LF_CODE);
                stopped = true;
            } else if byte == CR_CODE {
                proof {
                    assert(line@ + (seq![CR_CODE] + line_from(bytes@, curr_index + 1, true))
                        =~= line@.push(CR_CODE) + line_from(bytes@, curr_index + 1, true));
                }
                cr_flg = true;
                line.push(CR_CODE);
                curr_index = curr_index + 1;
            } else if cr_flg {
                proof {
                    assert(line@ + Seq::<u8>::empty() =~= line@);
                }
                stopped = true;
            } else {
                proof {
                    assert(line@ + (seq![byte] + line_from(bytes@, curr_index + 1, false))
                        =~= line@.push(byte) + line_from(bytes@, curr_index + 1, false));
                }
                line.push(byte);
                curr_index = curr_index + 1;
            }
        }
    }
    open
}

/// Whether `line` is a line that the stream of `input` may give from `at`
/// on: the part in the window that the stream answers with at `at`, and,
/// where the line does not end there, the parts in the windows behind it. An
/// empty answer ends the line.
pub open spec fn stream_line(input: ParserInput, at: u64, after_cr: bool, line: Seq<u8>) -> bool
    decreases u64::MAX - at,
{
    exists|loaded: Result<Vec<u8>, String>| #[trigger]
        input.asked(at, loaded) && if loaded_window(loaded).len() == 0 {
            line == Seq::<u8>::empty()
        } else if line_open(loaded_window(loaded), 0, after_cr) is None || at + loaded_window(
            loaded,
        ).len() > u64::MAX {
            line == line_from(loaded_window(loaded), 0, after_cr)
        } else {
            &&& line_from(loaded_window(loaded), 0, after_cr).len() <= line.len()
            &&& line.subrange(0, line_from(loaded_window(loaded), 0, after_cr).len() as int)
                == line_from(loaded_window(loaded), 0, after_cr)
            &&& stream_line(
                input,
                (at + loaded_window(loaded).len()) as u64,
                line_open(loaded_window(loaded), 0, after_cr)->Some_0,
                line.skip(line_from(loaded_window(loaded), 0, after_cr).len() as int),
            )
        }
}

/// A line that ends in the window answered at `at` is a line of the stream.
proof fn lemma_stream_line_ends(
    input: ParserInput,
    at: u64,
    after_cr: bool,
    loaded: Result<Vec<u8>, String>,
)
    requires
        input.asked(at, loaded),
        loaded_window(loaded).len() == 0 || line_open(loaded_window(loaded), 0, after_cr) is None
            || at + loaded_window(loaded).len() > u64::MAX,
    ensures
        stream_line(
            input,
            at,
            after_cr,
            if loaded_window(loaded).len() == 0 {
                Seq::<u8>::empty()
            } else {
                line_from(loaded_window(loaded), 0, after_cr)
            },
        ),
{
}

/// The part in the window answered at `at`, in front of a line of the stream
/// behind that window, is a line of the stream.
proof fn lemma_stream_line_goes_on(
    input: ParserInput,
    at: u64,
    after_cr: bool,
    loaded: Result<Vec<u8>, String>,
    flag: bool,
    rest: Seq<u8>,
)
    requires
        input.asked(at, loaded),
        loaded_window(loaded).len() > 0,
        at + loaded_window(loaded).len() <= u64::MAX,
        line_open(loaded_window(loaded), 0, after_cr) == Some(flag),
        stream_line(input, (at + loaded_window(loaded).len()) as u64, flag, rest),
    ensures
        stream_line(input, at, after_cr, line_from(loaded_window(loaded), 0, after_cr) + rest),
{
    let part = line_from(loaded_window(loaded), 0, after_cr);
    assert((part + rest).subrange(0, part.len() as int) =~= part);
    assert((part + rest).skip(part.len() as int) =~= rest);
}

impl ParserInput {
    /// Whether the input may be read: a stream can be asked, and its window
    /// has its full capacity, of which no more than that is valid.
    pub open spec fn wf(&self) -> bool {
        match self {
            ParserInput::Text(_) => true,
            ParserInput::File { reader, buffer, buffer_seek, buffer_read } => {
                &&& reader.wf()
                &&& buffer@.len() == BUF_SIZE
                &&& *buffer_read <= BUF_SIZE
            },
        }
    }

    /// The whole text of an in-memory input; a stream has none.
    pub open spec fn content(&self) -> Option<Seq<u8>> {
        match self {
            ParserInput::Text(bytes) => Some(bytes@),
            ParserInput::File { .. } => None,
        }
    }

    /// Offset of the first byte that is held in memory.
    pub open spec fn window_start(&self) -> int {
        match self {
            ParserInput::Text(_) => 0,
            ParserInput::File { reader, buffer, buffer_seek, buffer_read } => *buffer_seek as int,
        }
    }

    /// The bytes that are held in memory.
    pub open spec fn window(&self) -> Seq<u8> {
        match self {
            ParserInput::Text(bytes) => bytes@,
            ParserInput::File { reader, buffer, buffer_seek, buffer_read } => buffer@.subrange(
                0,
                *buffer_read as int,
            ),
        }
    }

    /// Whether the `size` bytes from `offset` are all held in memory.
    pub open spec fn covers(&self, offset: int, size: int) -> bool {
        self.window_start() <= offset && offset + size <= self.window_start()
            + self.window().len()
    }

    /// The `size` bytes from `offset`, taken from memory.
    pub open spec fn slice(&self, offset: int, size: int) -> Seq<u8>
        recommends
            self.covers(offset, size),
            size >= 0,
    {
        self.window().subrange(offset - self.window_start(), offset - self.window_start() + size)
    }

    /// Whether the stream may answer a request for a window at `offset` with
    /// `loaded`.
    pub open spec fn asked(&self, offset: u64, loaded: Result<Vec<u8>, String>) -> bool {
        match self {
            ParserInput::Text(_) => false,
            ParserInput::File { reader, .. } => reader.answers(offset, BUF_SIZE, loaded),
        }
    }

    /// Whether the window stands at `offset` and holds what the answer
    /// `loaded` of the stream gave.
    pub open spec fn holds_answer(&self, offset: u64, loaded: Result<Vec<u8>, String>) -> bool {
        self.window_start() == offset && self.window() == loaded_window(loaded)
    }

    /// Whether `self` reads the same text or stream as `other`.
    pub open spec fn same_stream(&self, other: &ParserInput) -> bool {
        match (self, other) {
            (ParserInput::Text(mine), ParserInput::Text(theirs)) => mine@ == theirs@,
            (
                ParserInput::File { reader: mine, .. },
                ParserInput::File { reader: theirs, .. },
            ) => mine == theirs,
            _ => false,
        }
    }

    /// A text in memory is never longer than the machine can address.
    pub proof fn lemma_content_fits(&self)
        ensures
            self.content() matches Some(text) ==> text.len() <= usize::MAX,
    {
        match self {
            ParserInput::Text(bytes) => {
                assert(bytes.len() <= usize::MAX);
            },
            ParserInput::File { .. } => {},
        }
    }

    /// An input over the bytes of `str`.
    pub fn text(str: &str) -> (input: ParserInput)
        ensures
            input.wf(),
            input.content() == Some(str.spec_bytes()),
    {
        ParserInput::Text(str.as_bytes_vec())
    }

    /// An input over the stream that `load` reads, with the window placed at
    /// its start.
    pub fn file<F>(load: F) -> (input: ParserInput) where
        F: Fn(u64, usize) -> Result<Vec<u8>, String> + 'static,

        requires
            forall|offset: u64, capacity: usize| call_requires(load, (offset, capacity)),
        ensures
            input.wf(),
            input.content() is None,
            exists|loaded: Result<Vec<u8>, String>| #[trigger]
                call_ensures(load, (0u64, BUF_SIZE), loaded) && input.window_start() == 0
                    && input.window() == loaded_window(loaded),
    {
        let mut buffer: Vec<u8> = Vec::new();
        let mut i: usize = 0;
        while i < BUF_SIZE
            invariant
                i <= BUF_SIZE,
                buffer@.len() == i,
            decreases BUF_SIZE - i,
        {
            buffer.push(0);
            i += 1;
        }
        let mut input = ParserInput::File {
            reader: Box::new(FnSource { load }),
            buffer,
            buffer_seek: 0,
            buffer_read: 0,
        };
        let ghost before = input;
        input.reload(0);
        proof {
            let loaded = choose|loaded: Result<Vec<u8>, String>| #[trigger]
                before.asked(0, loaded) && input.holds_answer(0, loaded);
            assert(call_ensures(load, (0u64, BUF_SIZE), loaded));
        }
        input
    }

    /// Whether the input holds a byte at `offset`. A stream whose window does
    /// not reach `offset`, or is full, is read again from `offset`.
    pub fn has_more(&mut self, offset: usize) -> (more: bool)
        requires
            old(self).wf(),
        ensures
            final(self).wf(),
            final(self).same_stream(old(self)),
            old(self).content() is Some ==> *final(self) == *old(self),
            old(self).content() is Some || (old(self).covers(offset as int, 0) && old(self).window().len() < BUF_SIZE) ==> {
                &&& final(self).window_start() == old(self).window_start()
                &&& final(self).window() == old(self).window()
                &&& more == (old(self).window_start() + old(self).window().len() > offset)
            },
            old(self).content() is None && !(old(self).covers(offset as int, 0) && old(self).window().len() < BUF_SIZE) ==> {
                &&& exists|loaded: Result<Vec<u8>, String>| #[trigger]
                    old(self).asked(offset as u64, loaded) && final(self).holds_answer(
                        offset as u64,
                        loaded,
                    )
                &&& more == (final(self).window().len() > 0)
            },
    {
        let ghost mut answer: Option<Result<Vec<u8>, String>> = None;
        let more = match self {
            ParserInput::Text(bytes) => bytes.len() > offset,
            ParserInput::File { reader, buffer, buffer_seek, buffer_read } => {
                let at: u64 = offset as u64;
                let reaches = *buffer_seek <= at && at - *buffer_seek <= *buffer_read as u64;
                if !reaches || *buffer_read >= BUF_SIZE {
                    let done = ParserInput::load_buf(reader, buffer, buffer_seek, buffer_read, at);
                    proof {
                        answer = Some(done.1@);
                    }
                }
                *buffer_seek > at || at - *buffer_seek < *buffer_read as u64
            },
        };
        proof {
            if answer is Some {
                assert(old(self).asked(offset as u64, answer->Some_0));
            }
        }
        more
    }

    /// The line that starts at `offset`, with its terminator. A stream is
    /// read window by window from `offset` on until the line ends or the
    /// stream gives nothing more.
    pub fn read_line(&mut self, offset: usize) -> (line: Vec<u8>)
        requires
            old(self).wf(),
        ensures
            final(self).wf(),
            final(self).same_stream(old(self)),
            old(self).content() matches Some(bytes) ==> *final(self) == *old(self) && line@
                == line_from(bytes, offset as int, false),
            old(self).content() is None ==> stream_line(*old(self), offset as u64, false, line@),
    {
        let ghost before = *self;
        match self {
            ParserInput::Text(bytes) => {
                let mut vec: Vec<u8> = Vec::new();
                let _ = scan_line(bytes.as_slice(), offset, false, &mut vec);
                proof {
                    assert(Seq::<u8>::empty() + line_from(bytes@, offset as int, false)
                        =~= line_from(bytes@, offset as int, false));
                }
                vec
            },
            ParserInput::File { reader, buffer, buffer_seek, buffer_read } => {
                let mut vec: Vec<u8> = Vec::new();
                let mut cr_flg = false;
                let mut curr_buffer_offset: u64 = offset as u64;
                let mut stopped = false;
                proof {
                    assert forall|rest: Seq<u8>| Seq::<u8>::empty() + rest =~= rest by {}
                }
                while !stopped
                    invariant
                        before == *old(self),
                        forall|at: u64, answer: Result<Vec<u8>, String>| #[trigger]
                            reader.answers(at, BUF_SIZE, answer) ==> before.asked(at, answer),
                        reader.wf(),
                        buffer@.len() == BUF_SIZE,
                        *buffer_read <= BUF_SIZE,
                        !stopped ==> forall|rest: Seq<u8>| #[trigger]
                            stream_line(before, curr_buffer_offset, cr_flg, rest) ==> stream_line(
                                before,
                                offset as u64,
                                false,
                                vec@ + rest,
                            ),
                        stopped ==> stream_line(before, offset as u64, false, vec@),
                    decreases
                            u64::MAX - curr_buffer_offset + if stopped {
                                0int
                            } else {
                                1int
                            },
                {
                    let done = ParserInput::load_buf(
                        reader,
                        buffer,
                        buffer_seek,
                        buffer_read,
                        curr_buffer_offset,
                    );
                    let ghost loaded = done.1@;
                    let ghost part = line_from(loaded_window(loaded), 0, cr_flg);
                    let ghost collected = vec@;
                    proof {
                        assert(before.asked(curr_buffer_offset, loaded));
                    }
                    if *buffer_read == 0 {
                        proof {
                            lemma_stream_line_ends(before, curr_buffer_offset, cr_flg, loaded);
                            assert(vec@ + Seq::<u8>::empty() =~= vec@);
                        }
                        stopped = true;
                    } else {
                        let window = slice_subrange(buffer.as_slice(), 0, *buffer_read);
                        let open = scan_line(window, 0, cr_flg, &mut vec);
                        let next = curr_buffer_offset.checked_add(*buffer_read as u64);
                        match (open, next) {
                            (Some(flag), Some(behind)) => {
                                proof {
                                    assert forall|rest: Seq<u8>| #[trigger]
                                        stream_line(before, behind, flag, rest) implies stream_line(
                                        before,
                                        offset as u64,
                                        false,
                                        vec@ + rest,
                                    ) by {
                                        lemma_stream_line_goes_on(
                                            before,
                                            curr_buffer_offset,
                                            cr_flg,
                                            loaded,
                                            flag,
                                            rest,
                                        );
                                        assert(collected + (part + rest) =~= vec@ + rest);
                                    }
                                }
                                cr_flg = flag;
                                curr_buffer_offset = behind;
                            },
                            _ => {
                                proof {
                                    lemma_stream_line_ends(
                                        before,
                                        curr_buffer_offset,
                                        cr_flg,
                                        loaded,
                                    );
                                }
                                stopped = true;
                            },
                        }
                    }
                }
                vec
            },
        }
    }

    /// The `size` bytes from `offset`. An in-memory text serves what it holds.
    /// A stream serves from its window; where the window does not cover the
    /// bytes it is first placed at `offset`. More than [`BUF_SIZE`] bytes are
    /// never served from a stream.
    pub fn read_by_size(&mut self, offset: usize, size: usize) -> (read: Result<&[u8], MyError>)
        requires
            old(self).wf(),
        ensures
            final(self).wf(),
            final(self).same_stream(old(self)),
            old(self).content() is Some ==> *final(self) == *old(self),
            old(self).content() is None && size > BUF_SIZE ==> {
                &&& final(self).window_start() == old(self).window_start()
                &&& final(self).window() == old(self).window()
                &&& read matches Err(MyError::Common(message)) && message@ == "buffer over"@
            },
            (old(self).content() is Some || size <= BUF_SIZE) && old(self).covers(
                offset as int,
                size as int,
            ) ==> {
                &&& final(self).window_start() == old(self).window_start()
                &&& final(self).window() == old(self).window()
                &&& read matches Ok(bytes) && bytes@ == old(self).slice(offset as int, size as int)
            },
            old(self).content() is Some && !old(self).covers(offset as int, size as int)
                ==> (read matches Err(MyError::Common(message)) && message@ == "offset over"@),
            old(self).content() is None && size <= BUF_SIZE && !old(self).covers(
                offset as int,
                size as int,
            ) ==> exists|loaded: Result<Vec<u8>, String>|
                {
                    &&& #[trigger] old(self).asked(offset as u64, loaded)
                    &&& final(self).holds_answer(offset as u64, loaded)
                    &&& match loaded {
                        Err(reason) => read matches Err(MyError::IO(message)) && message == reason,
                        Ok(_) => if final(self).covers(offset as int, size as int) {
                            read matches Ok(bytes) && bytes@ == final(self).slice(
                                offset as int,
                                size as int,
                            )
                        } else {
                            read matches Err(MyError::Common(message)) && message@
                                == "offset over"@
                        },
                    }
                },
    {
        let ghost before = *self;
        match self {
            ParserInput::Text(bytes) => {
                if size <= bytes.len() && offset <= bytes.len() - size {
                    Ok(slice_subrange(bytes.as_slice(), offset, offset + size))
                } else {
                    Err(MyError::Common("offset over".to_owned()))
                }
            },
            ParserInput::File { reader, buffer, buffer_seek, buffer_read } => {
                if size > BUF_SIZE {
                    Err(MyError::Common("buffer over".to_owned()))
                } else {
                    let at: u64 = offset as u64;
                    let mut failed: Option<MyError> = None;
                    if !(*buffer_seek <= at && at - *buffer_seek <= *buffer_read as u64
                        && size as u64 <= *buffer_read as u64 - (at - *buffer_seek)) {
                        let done = ParserInput::load_buf(reader, buffer, buffer_seek, buffer_read, at);
                        proof {
                            assert(before.asked(at, done.1@));
                        }
                        match done.0 {
                            Ok(()) => {},
                            Err(error) => {
                                failed = Some(error);
                            },
                        }
                    }
                    match failed {
                        Some(error) => Err(error),
                        None => {
                            if *buffer_seek <= at && at - *buffer_seek <= *buffer_read as u64
                                && size as u64 <= *buffer_read as u64 - (at - *buffer_seek) {
                                let buf_from: usize = (at - *buffer_seek) as usize;
                                let buf_to: usize = buf_from + size;
                                Ok(slice_subrange(buffer.as_slice(), buf_from, buf_to))
                            } else {
                                Err(MyError::Common("offset over".to_owned()))
                            }
                        },
                    }
                }
            },
        }
    }

    /// Places the window of a stream at `offset`.
    fn reload(&mut self, offset: u64)
        requires
            old(self).wf(),
            old(self).content() is None,
        ensures
            final(self).wf(),
            final(self).same_stream(old(self)),
            exists|loaded: Result<Vec<u8>, String>| #[trigger]
                old(self).asked(offset, loaded) && final(self).holds_answer(offset, loaded),
    {
        let ghost mut answer: Result<Vec<u8>, String> = arbitrary();
        match self {
            ParserInput::Text(_) => {},
            ParserInput::File { reader, buffer, buffer_seek, buffer_read } => {
                let done = ParserInput::load_buf(reader, buffer, buffer_seek, buffer_read, offset);
                proof {
                    answer = done.1@;
                }
            },
        }
        assert(old(self).asked(offset, answer));
    }

    /// Places the window at `offset`: clears the buffer, reads up to
    /// [`BUF_SIZE`] bytes from there and records how many came. What the
    /// stream hands over beyond the capacity is dropped.
    fn load_buf(
        reader: &Box<dyn ByteSource>,
        buffer: &mut Vec<u8>,
        buffer_seek: &mut u64,
        buffer_read: &mut usize,
        offset: u64,
    ) -> (done: (Result<(), MyError>, Ghost<Result<Vec<u8>, String>>))
        requires
            reader.wf(),
            old(buffer)@.len() == BUF_SIZE,
        ensures
            final(buffer)@.len() == BUF_SIZE,
            *final(buffer_seek) == offset,
            *final(buffer_read) <= BUF_SIZE,
            forall|i: int| *final(buffer_read) <= i < BUF_SIZE ==> final(buffer)@[i] == 0,
            reader.answers(offset, BUF_SIZE, done.1@),
            final(buffer)@.subrange(0, *final(buffer_read) as int) == loaded_window(done.1@),
            match done.1@ {
                Err(reason) => done.0 matches Err(MyError::IO(message)) && message == reason,
                Ok(_) => done.0 is Ok,
            },
    {
        let loaded = reader.load(offset, BUF_SIZE);
        let ghost answer = loaded;
        let mut i: usize = 0;
        while i < BUF_SIZE
            invariant
                i <= BUF_SIZE,
                buffer@.len() == BUF_SIZE,
                forall|k: int| 0 <= k < i ==> buffer@[k] == 0,
            decreases BUF_SIZE - i,
        {
            buffer.set(i, 0);
            i += 1;
        }
        *buffer_seek = offset;
        match loaded {
            Ok(bytes) => {
                let count: usize = if bytes.len() < BUF_SIZE {
                    bytes.len()
                } else {
                    BUF_SIZE
                };
                let mut k: usize = 0;
                while k < count
                    invariant
                        k <= count <= BUF_SIZE,
                        count <= bytes@.len(),
                        buffer@.len() == BUF_SIZE,
                        forall|j: int| count <= j < BUF_SIZE ==> buffer@[j] == 0,
                        forall|j: int| 0 <= j < k ==> buffer@[j] == bytes@[j],
                    decreases count - k,
                {
                    buffer.set(k, bytes[k]);
                    k += 1;
                }
                *buffer_read = count;
                proof {
                    assert(buffer@.subrange(0, count as int) =~= loaded_window(answer));
                }
                (Ok(()), Ghost(answer))
            },
            Err(message) => {
                *buffer_read = 0;
                proof {
                    assert(buffer@.subrange(0, 0) =~= loaded_window(answer));
                }
                (Err(MyError::IO(message)), Ghost(answer))
            },
        }
    }
}

} // verus!
