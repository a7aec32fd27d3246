use vstd::prelude::*;

verus! {

/// What asking one file system to open a path gave.
#[derive(Clone, Copy, Debug, PartialEq, Eq)]
pub enum OpenOutcome {
    /// The file was opened.
    Opened,
    /// The file system has no such file.
    NotFound,
    /// The firmware failed with this status code.
    Failed(usize),
}

/// Where the search for a file over the file systems stands.
#[derive(Clone, Copy, Debug, PartialEq, Eq)]
pub enum FindStep {
    /// The file was found on the file system of this index.
    Found(usize),
    /// The search goes on with the next file system.
    Next,
    /// The search stops with this status code.
    Fail(usize),
}

/// The outcome of the search over file systems whose answers were
/// `outcomes`, in order: the first file system that opens the path, or the
/// first failure other than a missing file; `None` when every file system
/// lacks the file.
pub open spec fn search_result(outcomes: Seq<OpenOutcome>, from: int) -> Option<FindStep>
    decreases outcomes.len() - from,
{
    if from < 0 || from >= outcomes.len() {
        None
    } else {
        match outcomes[from] {
            OpenOutcome::Opened => Some(FindStep::Found(from as usize)),
            OpenOutcome::NotFound => search_result(outcomes, from + 1),
            OpenOutcome::Failed(code) => Some(FindStep::Fail(code)),
        }
    }
}

/// What the search does after file system `index` answered `outcome`: a
/// missing file sends it on to the next file system, any other failure
/// ends it.
pub fn find_step(index: usize, outcome: OpenOutcome) -> (s: FindStep)
    ensures
        s == (match outcome {
            OpenOutcome::Opened => FindStep::Found(index),
            OpenOutcome::NotFound => FindStep::Next,
            OpenOutcome::Failed(code) => FindStep::Fail(code),
        }),
{
    match outcome {
        OpenOutcome::Opened => FindStep::Found(index),
        OpenOutcome::NotFound => FindStep::Next,
        OpenOutcome::Failed(code) => FindStep::Fail(code),
    }
}

/// The search over the file systems finds nothing exactly when every one of
/// them lacks the file, and a file that it finds lies on a file system that
/// opened it, every earlier one having lacked it.
pub proof fn lemma_find_steps(outcomes: Seq<OpenOutcome>, from: int)
    requires
        0 <= from <= outcomes.len(),
        outcomes.len() <= usize::MAX,
    ensures
        search_result(outcomes, from) is None <==> (forall|j: int|
            from <= j < outcomes.len() ==> outcomes[j] == OpenOutcome::NotFound),
        search_result(outcomes, from) matches Some(FindStep::Found(i)) ==> from <= i
            < outcomes.len() && outcomes[i as int] == OpenOutcome::Opened && (forall|j: int|
            from <= j < i ==> outcomes[j] == OpenOutcome::NotFound),
    decreases outcomes.len() - from,
{
    if from < outcomes.len() {
        lemma_find_steps(outcomes, from + 1);
    }
}

/// The path of the boot loader's configuration file, as NUL-terminated
/// UTF-16: `boot2snow\boot2snow.conf`.
pub const PATH_CONFIG: [u16; 25] = [
    0x62, 0x6F, 0x6F, 0x74, 0x32, 0x73, 0x6E, 0x6F, 0x77, 0x5C, 0x62, 0x6F, 0x6F, 0x74, 0x32, 0x73,
    0x6E, 0x6F, 0x77, 0x2E, 0x63, 0x6F, 0x6E, 0x66, 0x00,
];

/// The path of the kernel that the boot loader falls back to, as
/// NUL-terminated UTF-16: `boot2snow\kernel.bin`.
pub const PATH_FALLBACK_KERNEL: [u16; 21] = [
    0x62, 0x6F, 0x6F, 0x74, 0x32, 0x73, 0x6E, 0x6F, 0x77, 0x5C, 0x6B, 0x65, 0x72, 0x6E, 0x65, 0x6C,
    0x2E, 0x62, 0x69, 0x6E, 0x00,
];

/// The boot loader's configuration: the path of the kernel to load, as
/// NUL-terminated UTF-16.
#[derive(Clone, Debug, PartialEq, Eq)]
pub struct Configuration {
    pub kernel: Vec<u16>,
}

impl Configuration {
    /// The configuration, given what opening the configuration file gave:
    /// its contents are not read, so an opened file and a missing file both
    /// give the fallback kernel path; any other failure is passed on.
    pub fn from_file(opened: OpenOutcome) -> (r: Result<Configuration, usize>)
        ensures
            (match opened {
                OpenOutcome::Failed(code) => r matches Err(e) && e == code,
                _ => r matches Ok(c) && c.kernel@ == PATH_FALLBACK_KERNEL@,
            }),
    {
        match opened {
            OpenOutcome::Failed(code) => Err(code),
            _ => {
                let mut kernel: Vec<u16> = Vec::new();
                let mut i: usize = 0;
                while i < 21
                    invariant
                        0 <= i <= 21,
                        kernel@ == PATH_FALLBACK_KERNEL@.take(i as int),
                    decreases 21 - i,
                {
                    kernel.push(PATH_FALLBACK_KERNEL[i]);
                    assert(PATH_FALLBACK_KERNEL@.take(i + 1) =~= PATH_FALLBACK_KERNEL@.take(
                        i as int,
                    ).push(PATH_FALLBACK_KERNEL@[i as int]));
                    i = i + 1;
                }
                assert(PATH_FALLBACK_KERNEL@.take(21) =~= PATH_FALLBACK_KERNEL@);
                Ok(Configuration { kernel })
            },
        }
    }
}

/// Adds what one read of a file gave to the bytes read so far: a read of
/// `count > 0` bytes appends the first `count` bytes of the buffer and
/// returns the new total; a read of nothing is the end of the file and
/// returns `None`, leaving `data` as it was.
pub fn append_read(data: &mut Vec<u8>, total: usize, buf: &[u8], count: usize) -> (r: Option<usize>)
    requires
        count <= buf@.len(),
        total + count <= usize::MAX,
    ensures
        count == 0 ==> r is None && final(data)@ == old(data)@,
        count > 0 ==> r == Some((total + count) as usize) && final(data)@ == old(data)@ + buf@.take(
            count as int,
        ),
{
    if count == 0 {
        return None;
    }
    let ghost start = data@;
    let mut i: usize = 0;
    while i < count
        invariant
            count <= buf@.len(),
            0 <= i <= count,
            data@ == start + buf@.take(i as int),
        decreases count - i,
    {
        data.push(buf[i]);
        assert(buf@.take(i + 1) =~= buf@.take(i as int).push(buf@[i as int]));
        i = i + 1;
    }
    Some(total + count)
}

/// What loading a file does next.
#[derive(Clone, Copy, Debug, PartialEq, Eq)]
pub enum LoadAction {
    /// Ask file system `i` to open the path.
    Open(usize),
    /// Read the next chunk of the opened file.
    Read,
    /// The whole file has been read.
    Done,
    /// Loading stops with this firmware status code.
    Fail(usize),
    /// No file system has the file.
    Missing,
}

/// What loading does after file system `index` of `count` answered
/// `outcome`.
pub open spec fn open_action(count: int, index: int, outcome: OpenOutcome) -> LoadAction {
    match outcome {
        OpenOutcome::Opened => LoadAction::Read,
        OpenOutcome::NotFound => if index + 1 < count {
            LoadAction::Open((index + 1) as usize)
        } else {
            LoadAction::Missing
        },
        OpenOutcome::Failed(code) => LoadAction::Fail(code),
    }
}

/// What loading does after a read that gave `chunk` (an empty chunk is the
/// end of the file) or failed with a status code.
pub open spec fn read_action(read: Result<Seq<u8>, usize>) -> LoadAction {
    match read {
        Ok(chunk) => if chunk.len() == 0 {
            LoadAction::Done
        } else {
            LoadAction::Read
        },
        Err(code) => LoadAction::Fail(code),
    }
}

/// Loading a file over `count` file systems: which file system it asks
/// next, and the bytes read so far.
pub struct FileLoad {
    count: usize,
    index: usize,
    data: Vec<u8>,
}

impl View for FileLoad {
    type V = (int, int, Seq<u8>);

    /// The number of file systems, the one asked last, and the bytes read.
    closed spec fn view(&self) -> (int, int, Seq<u8>) {
        (self.count as int, self.index as int, self.data@)
    }
}

impl FileLoad {
    /// Starts loading over `count` file systems: the first is asked, or,
    /// when there is none, the file is missing.
    pub fn new(count: usize) -> (r: (FileLoad, LoadAction))
        ensures
            r.0@ == (count as int, 0int, Seq::<u8>::empty()),
            r.1 == (if count == 0 {
                LoadAction::Missing
            } else {
                LoadAction::Open(0)
            }),
    {
        let l = FileLoad { count, index: 0, data: Vec::new() };
        if count == 0 {
            (l, LoadAction::Missing)
        } else {
            (l, LoadAction::Open(0))
        }
    }

    /// Takes the answer of the file system asked last: a missing file moves
    /// on to the next file system.
    pub fn on_open(&mut self, outcome: OpenOutcome) -> (a: LoadAction)
        ensures
            a == open_action(old(self)@.0, old(self)@.1, outcome),
            final(self)@ == (old(self)@.0, if outcome == OpenOutcome::NotFound && old(self)@.1 + 1
                < old(self)@.0 {
                old(self)@.1 + 1
            } else {
                old(self)@.1
            }, old(self)@.2),
    {
        let step = find_step(self.index, outcome);
        match step {
            FindStep::Found(_) => LoadAction::Read,
            FindStep::Fail(code) => LoadAction::Fail(code),
            FindStep::Next => {
                if self.count > 0 && self.index < self.count - 1 {
                    self.index = self.index + 1;
                    LoadAction::Open(self.index)
                } else {
                    LoadAction::Missing
                }
            },
        }
    }

    /// Takes the result of a read into `buf`: `Ok(n)` when the first `n`
    /// bytes of `buf` were read, `Err` with the firmware's status otherwise.
    pub fn on_read(&mut self, read: Result<usize, usize>, buf: &[u8]) -> (a: LoadAction)
        requires
            read matches Ok(n) ==> n <= buf@.len() && old(self)@.2.len() + n <= usize::MAX,
        ensures
            a == read_action(
                match read {
                    Ok(n) => Ok(buf@.take(n as int)),
                    Err(e) => Err(e),
                },
            ),
            final(self)@ == (old(self)@.0, old(self)@.1, match read {
                Ok(n) => old(self)@.2 + buf@.take(n as int),
                Err(_) => old(self)@.2,
            }),
    {
        match read {
            Err(code) => LoadAction::Fail(code),
            Ok(n) => {
                let total = self.data.len();
                match append_read(&mut self.data, total, buf, n) {
                    None => {
                        assert(buf@.take(0) =~= Seq::<u8>::empty());
                        assert(self.data@ =~= old(self)@.2 + buf@.take(0));
                        LoadAction::Done
                    },
                    Some(_) => LoadAction::Read,
                }
            },
        }
    }

    /// The bytes read so far.
    pub fn data(&self) -> (d: &Vec<u8>)
        ensures
            d@ == self@.2,
    {
        &self.data
    }
}

/// Where the search over file systems whose answers are `outcomes` stops,
/// starting from file system `i` of `count`: the action it ends with and the
/// file system asked last.
pub open spec fn open_run(count: int, outcomes: Seq<OpenOutcome>, i: int) -> (LoadAction, int)
    decreases count - i,
{
    if i < 0 || i >= count || i >= outcomes.len() {
        (LoadAction::Missing, i)
    } else {
        match open_action(count, i, outcomes[i]) {
            LoadAction::Open(_) => open_run(count, outcomes, i + 1),
            a => (a, i),
        }
    }
}

/// The result of reading a file whose reads gave `reads`, on top of `data`:
/// the bytes read when an empty read ends the file, the status of the first
/// failed read, or the bytes so far when the reads run out.
pub open spec fn read_run(data: Seq<u8>, reads: Seq<Result<Seq<u8>, usize>>) -> Result<Seq<u8>, usize>
    decreases reads.len(),
{
    if reads.len() == 0 {
        Ok(data)
    } else {
        match read_action(reads[0]) {
            LoadAction::Read => read_run(data + reads[0]->Ok_0, reads.drop_first()),
            LoadAction::Fail(code) => Err(code),
            _ => Ok(data),
        }
    }
}

/// The chunks `chunks` one after the other.
pub open spec fn concat_chunks(chunks: Seq<Seq<u8>>) -> Seq<u8>
    decreases chunks.len(),
{
    if chunks.len() == 0 {
        Seq::empty()
    } else {
        chunks[0] + concat_chunks(chunks.drop_first())
    }
}

/// Asking the file systems in order, as `on_open` answers, stops at the
/// file system that `search_result` finds, reading it; at the first
/// failure, with its status; or, when every file system lacks the file,
/// with the file missing.
pub proof fn lemma_open_run(outcomes: Seq<OpenOutcome>, i: int)
    requires
        0 <= i <= outcomes.len(),
        outcomes.len() <= usize::MAX,
    ensures
        ({
            let r = open_run(outcomes.len() as int, outcomes, i);
            match search_result(outcomes, i) {
                None => r.0 == LoadAction::Missing,
                Some(FindStep::Found(k)) => r.0 == LoadAction::Read && r.1 == k,
                Some(FindStep::Fail(code)) => r.0 == LoadAction::Fail(code),
                Some(FindStep::Next) => false,
            }
        }),
    decreases outcomes.len() - i,
{
    if i < outcomes.len() {
        lemma_open_run(outcomes, i + 1);
        if outcomes[i] == OpenOutcome::NotFound && i + 1 == outcomes.len() {
            assert(search_result(outcomes, i + 1) is None);
        }
    }
}

/// Reading chunk after chunk, as `on_read` answers, gives the chunks read
/// one after the other once an empty read ends the file, and the status of
/// a failed read when one fails first.
pub proof fn lemma_read_run(data: Seq<u8>, chunks: Seq<Seq<u8>>, last: Result<Seq<u8>, usize>)
    requires
        forall|j: int| 0 <= j < chunks.len() ==> (#[trigger] chunks[j]).len() > 0,
        last matches Ok(c) ==> c.len() == 0,
    ensures
        read_run(data, chunks.map_values(|c: Seq<u8>| Ok::<Seq<u8>, usize>(c)).push(last)) == (
        match last {
            Ok(_) => Ok::<Seq<u8>, usize>(data + concat_chunks(chunks)),
            Err(code) => Err(code),
        }),
    decreases chunks.len(),
{
    let reads = chunks.map_values(|c: Seq<u8>| Ok::<Seq<u8>, usize>(c)).push(last);
    if chunks.len() == 0 {
        assert(reads.drop_first() =~= Seq::<Result<Seq<u8>, usize>>::empty());
        assert(data + Seq::<u8>::empty() =~= data);
    } else {
        let rest = chunks.drop_first();
        assert(reads.drop_first() =~= rest.map_values(|c: Seq<u8>| Ok::<Seq<u8>, usize>(c)).push(last));
        assert(reads[0] == Ok::<Seq<u8>, usize>(chunks[0]));
        lemma_read_run(data + chunks[0], rest, last);
        assert(data + chunks[0] + concat_chunks(rest) =~= data + concat_chunks(chunks));
    }
}

/// The result of loading a file, driven by `FileLoad` from the start: the
/// file systems answer `outcomes` in order and the reads of the opened file
/// give `reads`; `Err(None)` when no file system has the file.
pub open spec fn load_run(outcomes: Seq<OpenOutcome>, reads: Seq<Result<Seq<u8>, usize>>) -> Result<
    Seq<u8>,
    Option<usize>,
> {
    match open_run(outcomes.len() as int, outcomes, 0).0 {
        LoadAction::Read => match read_run(Seq::empty(), reads) {
            Ok(d) => Ok(d),
            Err(code) => Err(Some(code)),
        },
        LoadAction::Fail(code) => Err(Some(code)),
        _ => Err(None),
    }
}

/// Loading a file gives the whole file, its chunks one after the other, when
/// a file system opens it and its reads end with an empty read; the status of
/// the first failure, in the search or in a read; and `Err(None)` when every
/// file system lacks the file.
pub proof fn lemma_load(outcomes: Seq<OpenOutcome>, chunks: Seq<Seq<u8>>, last: Result<Seq<u8>, usize>)
    requires
        outcomes.len() <= usize::MAX,
        forall|j: int| 0 <= j < chunks.len() ==> (#[trigger] chunks[j]).len() > 0,
        last matches Ok(c) ==> c.len() == 0,
    ensures
        load_run(outcomes, chunks.map_values(|c: Seq<u8>| Ok::<Seq<u8>, usize>(c)).push(last)) == (
        match search_result(outcomes, 0) {
            Some(FindStep::Found(_)) => match last {
                Ok(_) => Ok::<Seq<u8>, Option<usize>>(concat_chunks(chunks)),
                Err(code) => Err(Some(code)),
            },
            Some(FindStep::Fail(code)) => Err(Some(code)),
            _ => Err(None),
        }),
{
    lemma_open_run(outcomes, 0);
    lemma_read_run(Seq::empty(), chunks, last);
    assert(Seq::<u8>::empty() + concat_chunks(chunks) =~= concat_chunks(chunks));
}

} // verus!
