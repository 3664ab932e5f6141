use vstd::prelude::*;
use vstd::string::StrSliceExecFns;

verus! {

/// One slow-log entry as the server reported it.
#[derive(Debug)]
pub struct SlowlogEntry {
    /// Server-assigned identifier, unique for the server's lifetime.
    pub id: u64,
    /// Unix seconds at which the command ran.
    pub timestamp: u64,
    /// Execution time in microseconds.
    pub duration_micros: u64,
    /// Command name first, then its arguments; never empty.
    pub command: Vec<String>,
    /// Client address; empty where the server does not report it.
    pub address: String,
    /// Client name; empty where the server does not report it.
    pub client_name: String,
}

/// The value of an entry, with each string seen as its characters.
pub struct EntryView {
    pub id: u64,
    pub timestamp: u64,
    pub duration_micros: u64,
    pub command: Seq<Seq<char>>,
    pub address: Seq<char>,
    pub client_name: Seq<char>,
}

impl View for SlowlogEntry {
    type V = EntryView;

    open spec fn view(&self) -> EntryView {
        EntryView {
            id: self.id,
            timestamp: self.timestamp,
            duration_micros: self.duration_micros,
            command: texts(self.command),
            address: self.address@,
            client_name: self.client_name@,
        }
    }
}

/// The characters of each string of a list.
pub open spec fn texts(v: Vec<String>) -> Seq<Seq<char>> {
    v@.map_values(|t: String| t@)
}

/// Why a record could not be turned into an entry.
#[derive(Debug, Clone, Copy, PartialEq, Eq, Structural)]
pub enum DecodeError {
    /// The record does not have the fields of the selected schema.
    Malformed,
    /// The record's command has no tokens.
    EmptyCommand,
}

impl EntryView {
    /// The command is not empty, so it has a name.
    pub open spec fn wf(self) -> bool {
        self.command.len() > 0
    }
}

/// The views of a sequence of entries.
pub open spec fn views(s: Seq<SlowlogEntry>) -> Seq<EntryView> {
    s.map_values(|e: SlowlogEntry| e@)
}

/// A copy of a list of strings.
fn copy_strings(v: &Vec<String>) -> (r: Vec<String>)
    ensures
        texts(r) == texts(*v),
{
    let mut r: Vec<String> = Vec::new();
    let mut i: usize = 0;
    while i < v.len()
        invariant
            i <= v@.len(),
            r@.len() == i,
            forall|k: int| 0 <= k < i ==> (#[trigger] r@[k])@ == v@[k]@,
        decreases v@.len() - i,
    {
        r.push(v[i].clone());
        i = i + 1;
    }
    assert(texts(r) =~= texts(*v));
    r
}

impl SlowlogEntry {
    /// Builds an entry; refuses a command without tokens.
    pub fn new(
        id: u64,
        timestamp: u64,
        duration_micros: u64,
        command: Vec<String>,
        address: String,
        client_name: String,
    ) -> (r: Result<SlowlogEntry, DecodeError>)
        ensures
            command@.len() == 0 <==> r == Err::<SlowlogEntry, DecodeError>(
                DecodeError::EmptyCommand,
            ),
            command@.len() > 0 ==> r is Ok,
            r matches Ok(e) ==> e.id == id && e.timestamp == timestamp && e.duration_micros
                == duration_micros && e.command == command && e.address == address
                && e.client_name == client_name,
    {
        if command.len() == 0 {
            Err(DecodeError::EmptyCommand)
        } else {
            Ok(SlowlogEntry { id, timestamp, duration_micros, command, address, client_name })
        }
    }

    /// A copy of this entry with the same value.
    pub fn duplicate(&self) -> (r: SlowlogEntry)
        ensures
            r@ == self@,
    {
        SlowlogEntry {
            id: self.id,
            timestamp: self.timestamp,
            duration_micros: self.duration_micros,
            command: copy_strings(&self.command),
            address: self.address.clone(),
            client_name: self.client_name.clone(),
        }
    }
}

/// Upper-case form of a string, as Rust's `str::to_uppercase` gives it.
pub uninterp spec fn upper_of(s: Seq<char>) -> Seq<char>;

/// Relies on str::to_uppercase: the result depends on the characters alone.
#[verifier::external_body]
fn uppercase(s: &str) -> (r: String)
    ensures
        r@ == upper_of(s@),
{
    s.to_uppercase()
}

/// Whether two strings hold the same characters.
fn same_chars(a: &str, b: &str) -> (r: bool)
    ensures
        r == (a@ == b@),
{
    let n = a.unicode_len();
    if n != b.unicode_len() {
        return false;
    }
    let mut i: usize = 0;
    while i < n
        invariant
            n == a@.len() == b@.len(),
            i <= n,
            forall|k: int| 0 <= k < i ==> a@[k] == b@[k],
        decreases n - i,
    {
        if a.get_char(i) != b.get_char(i) {
            return false;
        }
        i = i + 1;
    }
    assert(a@ =~= b@);
    true
}

/// The command names that the monitor issues itself, in upper case.
pub open spec fn is_ignored_name(upper: Seq<char>) -> bool {
    upper == "SLOWLOG"@ || upper == "INFO"@
}

/// Whether an upper-cased command name is one of the monitor's own commands.
pub fn is_ignored_upper(upper: &str) -> (r: bool)
    ensures
        r == is_ignored_name(upper@),
{
    same_chars(upper, "SLOWLOG") || same_chars(upper, "INFO")
}

/// Entries are reported unless their command, upper-cased, is ignored.
pub open spec fn reportable(e: EntryView) -> bool {
    !is_ignored_name(upper_of(e.command[0]))
}

/// Whether an entry should reach the deduplicator: its command name,
/// compared without regard to case, is not one the monitor issues itself.
pub fn should_report(e: &SlowlogEntry) -> (r: bool)
    requires
        e@.wf(),
    ensures
        r == reportable(e@),
{
    let upper = uppercase(e.command[0].as_str());
    !is_ignored_upper(upper.as_str())
}

/// The entries of `s` that are reported, in their order.
pub open spec fn kept(s: Seq<EntryView>) -> Seq<EntryView> {
    s.filter(|e: EntryView| reportable(e))
}

/// The entries of `entries` that should be reported, in their order.
pub fn retain_reported(entries: &Vec<SlowlogEntry>) -> (r: Vec<SlowlogEntry>)
    requires
        forall|k: int| 0 <= k < entries@.len() ==> (#[trigger] entries@[k])@.wf(),
    ensures
        views(r@) == kept(views(entries@)),
{
    let mut r: Vec<SlowlogEntry> = Vec::new();
    let mut i: usize = 0;
    while i < entries.len()
        invariant
            i <= entries@.len(),
            forall|k: int| 0 <= k < entries@.len() ==> (#[trigger] entries@[k])@.wf(),
            views(r@) == views(entries@.take(i as int)).filter(|e: EntryView| reportable(e)),
        decreases entries@.len() - i,
    {
        let ghost before = views(entries@.take(i as int));
        let ghost after = views(entries@.take(i + 1));
        proof {
            assert(after.drop_last() =~= before);
            assert(after.last() == entries@[i as int]@);
            reveal(Seq::filter);
        }
        if should_report(&entries[i]) {
            let e = entries[i].duplicate();
            r.push(e);
            assert(views(r@) =~= before.filter(|e: EntryView| reportable(e)).push(e@));
        } else {
            assert(views(r@) =~= after.filter(|e: EntryView| reportable(e)));
        }
        i = i + 1;
    }
    assert(entries@.take(i as int) =~= entries@);
    assert(views(r@) == kept(views(entries@)));
    r
}

} // verus!
