//! The sessions of the commands.
//!
//! A command is carried out in turns. The library decides; the shell around
//! it does what only it can do: it looks for the vault file, reads and writes
//! it, and asks the user. Each turn takes the state of the session and the
//! shell's reply to the last request, and gives the next state and the next
//! request, until the request is to finish with a report.

use vstd::prelude::*;
use crate::cli::HelpTopic;
use crate::crypto::{decrypt_vault, opened};
use crate::error::VaultError;
use crate::model::{sorted_records, lemma_sorted_records};
use crate::model::{Entry, EntryView, FileFormat, Records, Vault};
use crate::primitives::{trim_text, trimmed};
use crate::storage::{carries, create_refusal, create_vault, decode, decoded, opened_container};
use crate::storage::{save_refusal, save_vault, FORMAT_VERSION};

verus! {

/// What the user is asked for.
#[derive(Debug, Clone, Copy, PartialEq, Eq, Structural)]
pub enum Prompt {
    /// The master password of a new vault.
    NewMaster,
    /// The master password of a new vault, once more.
    ConfirmMaster,
    /// The master password of an existing vault.
    Master,
    /// The password of a new entry.
    EntryPassword,
    /// A note for a new entry; an empty line means none.
    Note,
}

/// How a command ended.
#[derive(Debug, PartialEq, Eq)]
pub enum Report {
    /// The vault file exists already and was left as it is.
    AlreadyExists { file: String },
    /// There is no vault file.
    NotFound { file: String },
    /// The two master passwords differ.
    Mismatch,
    /// A new vault was written.
    Created { file: String },
    /// An entry was put into the vault.
    Added { key: String },
    /// The names of the entries, in rising order.
    Listed { keys: Vec<String> },
    /// The entry that was asked for.
    Found { key: String, entry: Entry },
    /// The vault has no entry of that name.
    Missing { key: String },
    /// An entry was taken out of the vault.
    Removed { key: String },
    /// The command failed, and nothing was written.
    Failed { error: VaultError },
    /// The shell replied with what had not been asked for.
    OutOfTurn,
}

/// What the shell is asked to do next.
#[derive(Debug, PartialEq, Eq)]
pub enum Request {
    /// Say whether the file exists.
    FileExists { file: String },
    /// Read the container from the file.
    ReadContainer { file: String },
    /// Ask the user for a secret, without echo.
    AskSecret { prompt: Prompt },
    /// Ask the user for a line of text.
    AskLine { prompt: Prompt },
    /// Write the container to the file.
    WriteContainer { file: String, container: FileFormat },
    /// Show help and end.
    ShowHelp { topic: HelpTopic },
    /// Tell the user how the command ended, and end.
    Finish { report: Report },
}

/// What the shell found or was told.
#[derive(Debug, PartialEq, Eq)]
pub enum Reply {
    /// Whether the file exists.
    Exists(bool),
    /// The container that the file holds.
    Container(FileFormat),
    /// What the user typed.
    Text(String),
    /// The container has been written.
    Written,
}

/// An opened vault, with what is needed to save it again.
#[derive(Debug, PartialEq, Eq)]
pub struct Unlocked {
    pub vault: Vault,
    pub master: String,
    pub salt: Vec<u8>,
    pub version: u8,
    pub file: String,
}

/// How far the opening of a vault has come.
#[derive(Debug, PartialEq, Eq)]
pub enum OpenStage {
    /// Asked whether the file exists.
    Probe { file: String },
    /// Asked for the container.
    Load { file: String },
    /// Asked for the master password.
    Master { file: String, version: u8, salt: Vec<u8>, envelope: Vec<u8> },
}

/// How far the creation of a vault has come.
#[derive(Debug, PartialEq, Eq)]
pub enum InitStage {
    /// Asked whether the file exists.
    Probe { file: String },
    /// Asked for the master password.
    First { file: String },
    /// Asked for the master password once more.
    Second { file: String, first: String },
}

/// How far the adding of an entry has come.
#[derive(Debug, PartialEq, Eq)]
pub enum AddStage {
    /// The vault is being opened.
    Opening {
        stage: OpenStage,
        key: String,
        login: String,
        password: Option<String>,
        notes: Option<String>,
    },
    /// Asked for the password of the entry.
    Password { unlocked: Unlocked, key: String, login: String, notes: Option<String> },
    /// Asked for a note.
    Note { unlocked: Unlocked, key: String, login: String, secret: String },
}

/// The state of a session between two turns.
#[derive(Debug, PartialEq, Eq)]
pub enum Session {
    Init(InitStage),
    Add(AddStage),
    List(OpenStage),
    Get { stage: OpenStage, key: String },
    Remove { stage: OpenStage, key: String },
    /// Asked to write the container; the report is given when that is done.
    Writing(Report),
    /// Nothing is left to do.
    Done,
}

/// What a turn of opening a vault came to.
#[derive(Debug, PartialEq, Eq)]
pub enum Opening {
    /// The shell is asked for more.
    Wait(OpenStage, Request),
    /// The vault is open.
    Ready(Unlocked),
    /// The command ends here.
    Stop(Report),
}

/// The session ends with a report.
pub open spec fn ends_with(r: (Session, Request), report: Report) -> bool {
    r == (Session::Done, Request::Finish { report })
}

/// The session ends in failure.
pub open spec fn fails_with(r: (Session, Request), error: VaultError) -> bool {
    ends_with(r, Report::Failed { error })
}

/// The session asks the shell to write a container that holds the given
/// records, and will then end with the given report.
pub open spec fn writes(
    r: (Session, Request),
    unlocked: Unlocked,
    records: Records,
    report: Report,
) -> bool {
    &&& r.0 == Session::Writing(report)
    &&& r.1 matches Request::WriteContainer { file, container }
    &&& file == unlocked.file
    &&& container.version == unlocked.version
    &&& carries(container, unlocked.master@, unlocked.salt@, records)
}

/// What one turn of opening a vault comes to.
pub open spec fn open_turn(stage: OpenStage, reply: Reply, o: Opening) -> bool {
    match (stage, reply) {
        (OpenStage::Probe { file }, Reply::Exists(exists)) => if exists {
            o == Opening::Wait(OpenStage::Load { file }, Request::ReadContainer { file })
        } else {
            o == Opening::Stop(Report::NotFound { file })
        },
        (OpenStage::Load { file }, Reply::Container(container)) => if container.version
            != FORMAT_VERSION {
            o == Opening::Stop(Report::Failed { error: VaultError::UnsupportedVersion })
        } else {
            match decoded(container.salt@, container.blob@) {
                Err(error) => o == Opening::Stop(Report::Failed { error }),
                Ok((salt_bytes, envelope_bytes)) => {
                    &&& o matches Opening::Wait(
                        OpenStage::Master { file: f, version, salt, envelope },
                        Request::AskSecret { prompt: Prompt::Master },
                    )
                    &&& f == file
                    &&& version == container.version
                    &&& salt@ == salt_bytes
                    &&& envelope@ == envelope_bytes
                },
            }
        },
        (OpenStage::Master { file, version, salt, envelope }, Reply::Text(master)) => match opened(
            envelope@,
            master@,
            salt@,
        ) {
            Err(error) => o == Opening::Stop(Report::Failed { error }),
            Ok(records) => {
                &&& o matches Opening::Ready(unlocked)
                &&& unlocked.vault.records() == records
                &&& unlocked.master == master
                &&& unlocked.salt == salt
                &&& unlocked.version == version
                &&& unlocked.file == file
            },
        },
        _ => o == Opening::Stop(Report::OutOfTurn),
    }
}

/// One turn of opening a vault: the file is looked for, the container is
/// read and unwrapped, and the envelope is decrypted with the master
/// password. A container of another version is refused before the password
/// is asked for.
pub fn open_step(stage: OpenStage, reply: Reply) -> (o: Opening)
    ensures
        open_turn(stage, reply, o),
{
    match stage {
        OpenStage::Probe { file } => match reply {
            Reply::Exists(exists) => {
                if exists {
                    let path = file.clone();
                    Opening::Wait(OpenStage::Load { file }, Request::ReadContainer { file: path })
                } else {
                    Opening::Stop(Report::NotFound { file })
                }
            },
            _ => Opening::Stop(Report::OutOfTurn),
        },
        OpenStage::Load { file } => match reply {
            Reply::Container(container) => {
                if container.version != FORMAT_VERSION {
                    return Opening::Stop(
                        Report::Failed { error: VaultError::UnsupportedVersion },
                    );
                }
                match decode(&container) {
                    Err(error) => Opening::Stop(Report::Failed { error }),
                    Ok((salt, envelope)) => Opening::Wait(
                        OpenStage::Master { file, version: container.version, salt, envelope },
                        Request::AskSecret { prompt: Prompt::Master },
                    ),
                }
            },
            _ => Opening::Stop(Report::OutOfTurn),
        },
        OpenStage::Master { file, version, salt, envelope } => match reply {
            Reply::Text(master) => {
                match decrypt_vault(envelope.as_slice(), master.as_str(), salt.as_slice()) {
                    Err(error) => Opening::Stop(Report::Failed { error }),
                    Ok(vault) => Opening::Ready(Unlocked { vault, master, salt, version, file }),
                }
            },
            _ => Opening::Stop(Report::OutOfTurn),
        },
    }
}

/// What one turn of `init` comes to.
pub open spec fn init_turn(stage: InitStage, reply: Reply, r: (Session, Request)) -> bool {
    match (stage, reply) {
        (InitStage::Probe { file }, Reply::Exists(exists)) => if exists {
            ends_with(r, Report::AlreadyExists { file })
        } else {
            r == (
                Session::Init(InitStage::First { file }),
                Request::AskSecret { prompt: Prompt::NewMaster },
            )
        },
        (InitStage::First { file }, Reply::Text(first)) => r == (
            Session::Init(InitStage::Second { file, first }),
            Request::AskSecret { prompt: Prompt::ConfirmMaster },
        ),
        (InitStage::Second { file, first }, Reply::Text(second)) => if first@ != second@ {
            ends_with(r, Report::Mismatch)
        } else {
            match create_refusal(first@) {
                Some(error) => fails_with(r, error),
                None => {
                    &&& r.0 == Session::Writing(Report::Created { file })
                    &&& r.1 matches Request::WriteContainer { file: path, container }
                    &&& path == file
                    &&& opened_container(
                        container.version,
                        container.salt@,
                        container.blob@,
                        first@,
                    ) == Ok::<Records, VaultError>(Seq::<(Seq<char>, EntryView)>::empty())
                },
            }
        },
        _ => ends_with(r, Report::OutOfTurn),
    }
}

/// One turn of `init`: an existing file is left alone, the master password
/// is asked for twice, and where the two agree the container of an empty
/// vault is handed out to be written.
pub fn handle_init(stage: InitStage, reply: Reply) -> (r: (Session, Request))
    ensures
        init_turn(stage, reply, r),
{
    match stage {
        InitStage::Probe { file } => match reply {
            Reply::Exists(exists) => {
                if exists {
                    (Session::Done, Request::Finish { report: Report::AlreadyExists { file } })
                } else {
                    (
                        Session::Init(InitStage::First { file }),
                        Request::AskSecret { prompt: Prompt::NewMaster },
                    )
                }
            },
            _ => (Session::Done, Request::Finish { report: Report::OutOfTurn }),
        },
        InitStage::First { file } => match reply {
            Reply::Text(first) => (
                Session::Init(InitStage::Second { file, first }),
                Request::AskSecret { prompt: Prompt::ConfirmMaster },
            ),
            _ => (Session::Done, Request::Finish { report: Report::OutOfTurn }),
        },
        InitStage::Second { file, first } => match reply {
            Reply::Text(second) => {
                if first != second {
                    return (Session::Done, Request::Finish { report: Report::Mismatch });
                }
                match create_vault(first.as_str()) {
                    Err(error) => (
                        Session::Done,
                        Request::Finish { report: Report::Failed { error } },
                    ),
                    Ok(container) => {
                        let path = file.clone();
                        (
                            Session::Writing(Report::Created { file }),
                            Request::WriteContainer { file: path, container },
                        )
                    },
                }
            },
            _ => (Session::Done, Request::Finish { report: Report::OutOfTurn }),
        },
    }
}

/// How a session goes on where the opening of its vault has not come to an
/// open vault.
pub open spec fn goes_on(o: Opening, r: (Session, Request), session: Session) -> bool {
    match o {
        Opening::Wait(_, request) => r == (session, request),
        Opening::Stop(report) => ends_with(r, report),
        Opening::Ready(_) => false,
    }
}

/// What `list` does with an opened vault.
pub open spec fn list_after(unlocked: Unlocked, r: (Session, Request)) -> bool {
    &&& r.0 == Session::Done
    &&& r.1 matches Request::Finish { report: Report::Listed { keys } }
    &&& keys@.len() == unlocked.vault.records().len()
    &&& forall|i: int|
        0 <= i < keys@.len() ==> (#[trigger] keys@[i])@ == unlocked.vault.records()[i].0
}

/// What one turn of `list` comes to.
pub open spec fn list_turn(stage: OpenStage, reply: Reply, r: (Session, Request)) -> bool {
    exists|o: Opening|
        #![trigger open_turn(stage, reply, o)]
        open_turn(stage, reply, o) && match o {
            Opening::Wait(next, _) => goes_on(o, r, Session::List(next)),
            Opening::Stop(_) => goes_on(o, r, Session::Done),
            Opening::Ready(unlocked) => list_after(unlocked, r),
        }
}

/// One turn of `list`: the vault is opened, and the names of its entries are
/// reported in rising order.
pub fn handle_list(stage: OpenStage, reply: Reply) -> (r: (Session, Request))
    ensures
        list_turn(stage, reply, r),
{
    let o = open_step(stage, reply);
    let ghost opening = o;
    let r = match o {
        Opening::Wait(next, request) => (Session::List(next), request),
        Opening::Stop(report) => (Session::Done, Request::Finish { report }),
        Opening::Ready(unlocked) => (
            Session::Done,
            Request::Finish { report: Report::Listed { keys: unlocked.vault.keys() } },
        ),
    };
    assert(open_turn(stage, reply, opening));
    r
}

/// What `get` does with an opened vault.
pub open spec fn get_after(unlocked: Unlocked, key: String, r: (Session, Request)) -> bool {
    if unlocked.vault@.contains_key(key@) {
        &&& r.0 == Session::Done
        &&& r.1 matches Request::Finish { report: Report::Found { key: name, entry } }
        &&& name == key
        &&& entry@ == unlocked.vault@[key@]
    } else {
        ends_with(r, Report::Missing { key })
    }
}

/// What one turn of `get` comes to.
pub open spec fn get_turn(stage: OpenStage, key: String, reply: Reply, r: (Session, Request)) -> bool {
    exists|o: Opening|
        #![trigger open_turn(stage, reply, o)]
        open_turn(stage, reply, o) && match o {
            Opening::Wait(next, _) => goes_on(o, r, Session::Get { stage: next, key }),
            Opening::Stop(_) => goes_on(o, r, Session::Done),
            Opening::Ready(unlocked) => get_after(unlocked, key, r),
        }
}

/// One turn of `get`: the vault is opened, and the entry of the given name
/// is reported, or that there is none.
pub fn handle_get(stage: OpenStage, key: String, reply: Reply) -> (r: (Session, Request))
    ensures
        get_turn(stage, key, reply, r),
{
    let o = open_step(stage, reply);
    let ghost opening = o;
    let r = match o {
        Opening::Wait(next, request) => (Session::Get { stage: next, key }, request),
        Opening::Stop(report) => (Session::Done, Request::Finish { report }),
        Opening::Ready(unlocked) => {
            let found = match unlocked.vault.get(key.as_str()) {
                Some(entry) => Some(entry.clone()),
                None => None,
            };
            match found {
                Some(entry) => (
                    Session::Done,
                    Request::Finish { report: Report::Found { key, entry } },
                ),
                None => (Session::Done, Request::Finish { report: Report::Missing { key } }),
            }
        },
    };
    assert(open_turn(stage, reply, opening));
    r
}

/// What saving the vault of a session comes to: the container of the given
/// records is to be written, or the session fails.
pub open spec fn saves(
    r: (Session, Request),
    unlocked: Unlocked,
    records: Records,
    report: Report,
) -> bool {
    match save_refusal(records, unlocked.master@, unlocked.salt@) {
        Some(error) => fails_with(r, error),
        None => writes(r, unlocked, records, report),
    }
}

/// Saves the changed vault of a session.
fn save_step(unlocked: Unlocked, ghost_before: Ghost<Unlocked>, report: Report) -> (r: (
    Session,
    Request,
))
    requires
        unlocked.master == ghost_before@.master,
        unlocked.salt == ghost_before@.salt,
        unlocked.version == ghost_before@.version,
        unlocked.file == ghost_before@.file,
    ensures
        saves(r, ghost_before@, sorted_records(unlocked.vault@), report),
{
    proof {
        use_type_invariant(&unlocked.vault);
        lemma_sorted_records(unlocked.vault.records());
    }
    match save_vault(
        &unlocked.vault,
        unlocked.master.as_str(),
        unlocked.salt.as_slice(),
        unlocked.version,
    ) {
        Err(error) => (Session::Done, Request::Finish { report: Report::Failed { error } }),
        Ok(container) => (
            Session::Writing(report),
            Request::WriteContainer { file: unlocked.file, container },
        ),
    }
}

/// What `remove` does with an opened vault.
pub open spec fn remove_after(unlocked: Unlocked, key: String, r: (Session, Request)) -> bool {
    if unlocked.vault@.contains_key(key@) {
        saves(r, unlocked, sorted_records(unlocked.vault@.remove(key@)), Report::Removed { key })
    } else {
        ends_with(r, Report::Missing { key })
    }
}

/// What one turn of `remove` comes to.
pub open spec fn remove_turn(stage: OpenStage, key: String, reply: Reply, r: (
    Session,
    Request,
)) -> bool {
    exists|o: Opening|
        #![trigger open_turn(stage, reply, o)]
        open_turn(stage, reply, o) && match o {
            Opening::Wait(next, _) => goes_on(o, r, Session::Remove { stage: next, key }),
            Opening::Stop(_) => goes_on(o, r, Session::Done),
            Opening::Ready(unlocked) => remove_after(unlocked, key, r),
        }
}

/// One turn of `remove`: the vault is opened, and where it has an entry of
/// the given name, the vault without that entry is encrypted anew under the
/// same salt and handed out to be written.
pub fn handle_remove(stage: OpenStage, key: String, reply: Reply) -> (r: (Session, Request))
    ensures
        remove_turn(stage, key, reply, r),
{
    let o = open_step(stage, reply);
    let ghost opening = o;
    let r = match o {
        Opening::Wait(next, request) => (Session::Remove { stage: next, key }, request),
        Opening::Stop(report) => (Session::Done, Request::Finish { report }),
        Opening::Ready(unlocked) => {
            let ghost before = unlocked;
            let Unlocked { vault, master, salt, version, file } = unlocked;
            let mut vault = vault;
            match vault.remove(key.as_str()) {
                None => (Session::Done, Request::Finish { report: Report::Missing { key } }),
                Some(_) => save_step(
                    Unlocked { vault, master, salt, version, file },
                    Ghost(before),
                    Report::Removed { key },
                ),
            }
        },
    };
    assert(open_turn(stage, reply, opening));
    r
}

/// The note that a line typed by the user stands for: the line without the
/// white space at its ends, or none where nothing is left.
pub open spec fn note_of(line: Seq<char>) -> Option<Seq<char>> {
    if trimmed(line).len() == 0 {
        None
    } else {
        Some(trimmed(line))
    }
}

/// Reads a note from a line typed by the user.
pub fn note_from_line(line: &str) -> (note: Option<String>)
    ensures
        match note {
            Some(text) => note_of(line@) == Some(text@),
            None => note_of(line@) is None,
        },
{
    let text = trim_text(line);
    if text.is_empty() {
        None
    } else {
        Some(text.to_owned())
    }
}

/// What putting an entry into the vault of a session comes to.
pub open spec fn add_after(unlocked: Unlocked, key: String, entry: EntryView, r: (
    Session,
    Request,
)) -> bool {
    saves(
        r,
        unlocked,
        sorted_records(unlocked.vault@.insert(key@, entry)),
        Report::Added { key },
    )
}

/// How `add` goes on once the vault is open: what is missing of the entry
/// is asked for, the password first, and the complete entry is put in.
pub open spec fn add_next(
    unlocked: Unlocked,
    key: String,
    login: String,
    password: Option<String>,
    notes: Option<String>,
    r: (Session, Request),
) -> bool {
    match password {
        None => r == (
            Session::Add(AddStage::Password { unlocked, key, login, notes }),
            Request::AskSecret { prompt: Prompt::EntryPassword },
        ),
        Some(secret) => match notes {
            None => r == (
                Session::Add(AddStage::Note { unlocked, key, login, secret }),
                Request::AskLine { prompt: Prompt::Note },
            ),
            Some(text) => add_after(
                unlocked,
                key,
                EntryView { login: login@, password: secret@, notes: Some(text@) },
                r,
            ),
        },
    }
}

/// What one turn of `add` comes to.
pub open spec fn add_turn(stage: AddStage, reply: Reply, r: (Session, Request)) -> bool {
    match stage {
        AddStage::Opening { stage: opening, key, login, password, notes } => exists|o: Opening|
            #![trigger open_turn(opening, reply, o)]
            open_turn(opening, reply, o) && match o {
                Opening::Wait(next, _) => goes_on(
                    o,
                    r,
                    Session::Add(AddStage::Opening { stage: next, key, login, password, notes }),
                ),
                Opening::Stop(_) => goes_on(o, r, Session::Done),
                Opening::Ready(unlocked) => add_next(unlocked, key, login, password, notes, r),
            },
        AddStage::Password { unlocked, key, login, notes } => match reply {
            Reply::Text(secret) => add_next(unlocked, key, login, Some(secret), notes, r),
            _ => ends_with(r, Report::OutOfTurn),
        },
        AddStage::Note { unlocked, key, login, secret } => match reply {
            Reply::Text(line) => add_after(
                unlocked,
                key,
                EntryView { login: login@, password: secret@, notes: note_of(line@) },
                r,
            ),
            _ => ends_with(r, Report::OutOfTurn),
        },
    }
}

/// Puts a complete entry into the vault of a session and saves the vault.
fn add_entry(unlocked: Unlocked, key: String, entry: Entry) -> (r: (Session, Request))
    ensures
        add_after(unlocked, key, entry@, r),
{
    let ghost before = unlocked;
    let Unlocked { vault, master, salt, version, file } = unlocked;
    let mut vault = vault;
    vault.insert(key.clone(), entry);
    save_step(Unlocked { vault, master, salt, version, file }, Ghost(before), Report::Added { key })
}

/// Asks for what is missing of a new entry, or puts the entry in.
fn add_step(
    unlocked: Unlocked,
    key: String,
    login: String,
    password: Option<String>,
    notes: Option<String>,
) -> (r: (Session, Request))
    ensures
        add_next(unlocked, key, login, password, notes, r),
{
    match password {
        None => (
            Session::Add(AddStage::Password { unlocked, key, login, notes }),
            Request::AskSecret { prompt: Prompt::EntryPassword },
        ),
        Some(secret) => match notes {
            None => (
                Session::Add(AddStage::Note { unlocked, key, login, secret }),
                Request::AskLine { prompt: Prompt::Note },
            ),
            Some(text) => add_entry(
                unlocked,
                key,
                Entry { login, password: secret, notes: Some(text) },
            ),
        },
    }
}

/// One turn of `add`: the vault is opened, the password and the note of the
/// entry are asked for where the command line gave none, and the vault with
/// the entry put in is encrypted anew under the same salt and handed out to
/// be written. A note given on the command line is taken as it is; a note
/// typed at the prompt is trimmed, and an empty one means none.
pub fn handle_add(stage: AddStage, reply: Reply) -> (r: (Session, Request))
    ensures
        add_turn(stage, reply, r),
{
    match stage {
        AddStage::Opening { stage: opening, key, login, password, notes } => {
            let o = open_step(opening, reply);
            let ghost found = o;
            let r = match o {
                Opening::Wait(next, request) => (
                    Session::Add(
                        AddStage::Opening { stage: next, key, login, password, notes },
                    ),
                    request,
                ),
                Opening::Stop(report) => (Session::Done, Request::Finish { report }),
                Opening::Ready(unlocked) => add_step(unlocked, key, login, password, notes),
            };
            assert(open_turn(opening, reply, found));
            r
        },
        AddStage::Password { unlocked, key, login, notes } => match reply {
            Reply::Text(secret) => add_step(unlocked, key, login, Some(secret), notes),
            _ => (Session::Done, Request::Finish { report: Report::OutOfTurn }),
        },
        AddStage::Note { unlocked, key, login, secret } => match reply {
            Reply::Text(line) => {
                let notes = note_from_line(line.as_str());
                add_entry(unlocked, key, Entry { login, password: secret, notes })
            },
            _ => (Session::Done, Request::Finish { report: Report::OutOfTurn }),
        },
    }
}

/// What one turn of a session comes to.
pub open spec fn turn(session: Session, reply: Reply, r: (Session, Request)) -> bool {
    match session {
        Session::Init(stage) => init_turn(stage, reply, r),
        Session::Add(stage) => add_turn(stage, reply, r),
        Session::List(stage) => list_turn(stage, reply, r),
        Session::Get { stage, key } => get_turn(stage, key, reply, r),
        Session::Remove { stage, key } => remove_turn(stage, key, reply, r),
        Session::Writing(report) => match reply {
            Reply::Written => ends_with(r, report),
            _ => ends_with(r, Report::OutOfTurn),
        },
        Session::Done => ends_with(r, Report::OutOfTurn),
    }
}

/// Carries a session on by one turn: from its state and the shell's reply
/// to the last request, to the next state and the next request.
pub fn resume(session: Session, reply: Reply) -> (r: (Session, Request))
    ensures
        turn(session, reply, r),
{
    match session {
        Session::Init(stage) => handle_init(stage, reply),
        Session::Add(stage) => handle_add(stage, reply),
        Session::List(stage) => handle_list(stage, reply),
        Session::Get { stage, key } => handle_get(stage, key, reply),
        Session::Remove { stage, key } => handle_remove(stage, key, reply),
        Session::Writing(report) => match reply {
            Reply::Written => (Session::Done, Request::Finish { report }),
            _ => (Session::Done, Request::Finish { report: Report::OutOfTurn }),
        },
        Session::Done => (Session::Done, Request::Finish { report: Report::OutOfTurn }),
    }
}

} // verus!
