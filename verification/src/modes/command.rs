//! The mode in which a command is typed, and the commands.

use vstd::prelude::*;
use vstd::string::StringExecFns;
use vstd::string::StrSliceExecFns;
use crate::current_buffer::{BufferView, BuffrCollection};
use crate::keymap::{Chord, Event, KeyCode};
use crate::modes::mode::{
    current_became, to_normal, to_normal_redrawn, to_normal_with_info, CommandRequest, DirtyBytes,
    Mode, ModeTransition,
};
use crate::modes::quitting::Quitting;
use crate::text::string_of;

verus! {

/// The mode in which a command is typed, as specifications see it.
pub struct CommandView {
    pub command: Seq<char>,
    pub cursor: int,
}

/// The command typed so far, and the place before which is typed.
#[derive(Debug)]
pub struct Command {
    pub command: Vec<char>,
    pub cursor: usize,
}

impl View for Command {
    type V = CommandView;

    open spec fn view(&self) -> CommandView {
        CommandView { command: self.command@, cursor: self.cursor as int }
    }
}

/// What a command does.
#[derive(Debug, PartialEq, Eq, Clone, Copy, Structural)]
pub enum Handler {
    Quit,
    ForceQuit,
    Write,
    WriteQuit,
    WriteAll,
    Edit,
    DeleteBuffer,
    ForceDeleteBuffer,
}

/// Where the first space of `text` is, its length where it has none.
pub open spec fn first_space(text: Seq<char>) -> int
    decreases text.len(),
{
    if text.len() == 0 || text[0] == ' ' {
        0
    } else {
        1 + first_space(text.drop_first())
    }
}

/// The name of the command: what stands before the first space.
pub open spec fn command_name(text: Seq<char>) -> Seq<char> {
    text.subrange(0, first_space(text))
}

/// The argument of the command: what stands behind the first space.
pub open spec fn command_arg(text: Seq<char>) -> Seq<char> {
    if first_space(text) < text.len() {
        text.subrange(first_space(text) + 1, text.len() as int)
    } else {
        Seq::empty()
    }
}

/// The command that a name stands for.
pub open spec fn handler_for(name: Seq<char>) -> Option<Handler> {
    if name == "q"@ || name == "quit"@ {
        Some(Handler::Quit)
    } else if name == "q!"@ || name == "quit!"@ {
        Some(Handler::ForceQuit)
    } else if name == "w"@ || name == "write"@ {
        Some(Handler::Write)
    } else if name == "wq"@ {
        Some(Handler::WriteQuit)
    } else if name == "wa"@ || name == "write-all"@ {
        Some(Handler::WriteAll)
    } else if name == "e"@ || name == "edit"@ {
        Some(Handler::Edit)
    } else if name == "db"@ || name == "delete-current_buffer"@ {
        Some(Handler::DeleteBuffer)
    } else if name == "db!"@ || name == "delete-current_buffer!"@ {
        Some(Handler::ForceDeleteBuffer)
    } else {
        None
    }
}

/// Whether a buffer that has a path holds changes that were not written.
pub open spec fn any_unsaved(buffers: BuffrCollection) -> bool {
    exists|i: int|
        0 <= i < buffers.list@.len() && (#[trigger] buffers.list@[i])@.dirty
            && buffers.list@[i]@.path is Some
}

/// The buffers after the current one was closed.
pub open spec fn current_deleted(before: BuffrCollection, after: BuffrCollection) -> bool {
    &&& after.cur_buf_index == if before.cur_buf_index == 0 {
        0
    } else {
        (before.cur_buf_index - 1) as usize
    }
    &&& before.list@.len() > 1 ==> after.list@ == before.list@.remove(before.cur_buf_index as int)
    &&& before.list@.len() == 1 ==> {
        &&& after.list@.len() == 1
        &&& after.list@[0]@.path is None
        &&& after.list@[0]@.data == Seq::<u8>::empty()
        &&& !after.list@[0]@.dirty
    }
}

/// What the command `handler` with the argument `arg` makes of the buffers
/// and hands back.
pub open spec fn handled(handler: Handler, arg: Seq<char>, before: BuffrCollection, after: BuffrCollection, transition: ModeTransition) -> bool {
    let buffer = before.spec_current()@;
    match handler {
        Handler::Quit => after == before && if any_unsaved(before) {
            to_normal_with_info(transition, "unsaved changes! Run :wq or :q! instead."@)
        } else {
            transition matches ModeTransition::NewMode(Mode::Quitting(mode))
        },
        Handler::ForceQuit => after == before && (transition matches ModeTransition::NewMode(
            Mode::Quitting(mode),
        )),
        Handler::Write => after == before && if arg.len() > 0 {
            (transition matches ModeTransition::Request(CommandRequest::Write(path)) && path@
                == arg)
        } else {
            match buffer.path {
                Some(own) => (transition matches ModeTransition::Request(
                    CommandRequest::Write(path),
                ) && path@ == own),
                None => to_normal_with_info(transition, "current_buffer has no path"@),
            }
        },
        Handler::WriteQuit => after == before && (transition matches ModeTransition::Request(
            CommandRequest::WriteQuit,
        )),
        Handler::WriteAll => after == before && (transition matches ModeTransition::Request(
            CommandRequest::WriteAll,
        )),
        Handler::Edit => after == before && (transition matches ModeTransition::Request(
            CommandRequest::Edit(path),
        ) && path@ == arg),
        Handler::DeleteBuffer => if buffer.dirty && buffer.path is Some {
            after == before && to_normal_with_info(
                transition,
                "current_buffer is dirty, use :db! if you're sure"@,
            )
        } else {
            current_deleted(before, after) && to_normal_redrawn(transition)
        },
        Handler::ForceDeleteBuffer => current_deleted(before, after) && to_normal_redrawn(
            transition,
        ),
    }
}

/// What a finished command makes of the buffers and hands back.
pub open spec fn finished(text: Seq<char>, before: BuffrCollection, after: BuffrCollection, transition: ModeTransition) -> bool {
    match handler_for(command_name(text)) {
        Some(handler) => handled(handler, command_arg(text), before, after, transition),
        None => after == before && to_normal_with_info(
            transition,
            "Unknown command "@ + command_name(text),
        ),
    }
}

/// Where the first space is: before it stands no space.
pub proof fn lemma_first_space(text: Seq<char>, i: int)
    requires
        0 <= i <= text.len(),
        forall|k: int| 0 <= k < i ==> text[k] != ' ',
        i == text.len() || text[i] == ' ',
    ensures
        first_space(text) == i,
    decreases i,
{
    if i > 0 {
        let rest = text.drop_first();
        assert forall|k: int| 0 <= k < i - 1 implies rest[k] != ' ' by {
            assert(rest[k] == text[k + 1]);
        }
        if i < text.len() {
            assert(rest[i - 1] == text[i]);
        }
        lemma_first_space(rest, i - 1);
        assert(text[0] != ' ');
    }
}

/// Whether `chars` are the characters of `text`.
pub fn same_text(chars: &Vec<char>, text: &str) -> (same: bool)
    ensures
        same == (chars@ == text@),
{
    let len = text.unicode_len();
    if len != chars.len() {
        return false;
    }
    let mut i: usize = 0;
    while i < len
        invariant
            i <= len,
            len == text@.len(),
            len == chars@.len(),
            forall|k: int| 0 <= k < i ==> chars@[k] == text@[k],
        decreases len - i,
    {
        if chars[i] != text.get_char(i) {
            return false;
        }
        i += 1;
    }
    assert(chars@ =~= text@);
    true
}

/// The command that a name stands for.
pub fn default_commands(name: &Vec<char>) -> (handler: Option<Handler>)
    ensures
        handler == handler_for(name@),
{
    if same_text(name, "q") || same_text(name, "quit") {
        Some(Handler::Quit)
    } else if same_text(name, "q!") || same_text(name, "quit!") {
        Some(Handler::ForceQuit)
    } else if same_text(name, "w") || same_text(name, "write") {
        Some(Handler::Write)
    } else if same_text(name, "wq") {
        Some(Handler::WriteQuit)
    } else if same_text(name, "wa") || same_text(name, "write-all") {
        Some(Handler::WriteAll)
    } else if same_text(name, "e") || same_text(name, "edit") {
        Some(Handler::Edit)
    } else if same_text(name, "db") || same_text(name, "delete-current_buffer") {
        Some(Handler::DeleteBuffer)
    } else if same_text(name, "db!") || same_text(name, "delete-current_buffer!") {
        Some(Handler::ForceDeleteBuffer)
    } else {
        None
    }
}

/// Ends the editor, unless a buffer that has a path holds changes that were
/// not written.
pub fn quit(buf: &mut BuffrCollection, _arg: &str) -> (transition: ModeTransition)
    ensures
        handled(Handler::Quit, _arg@, *old(buf), *final(buf), transition),
{
    let mut unsaved = false;
    let mut i: usize = 0;
    while i < buf.list.len()
        invariant
            i <= buf.list@.len(),
            *buf == *old(buf),
            unsaved <==> exists|k: int|
                0 <= k < i && (#[trigger] buf.list@[k])@.dirty && buf.list@[k]@.path is Some,
        decreases buf.list@.len() - i,
    {
        if buf.list[i].dirty && buf.list[i].path.is_some() {
            unsaved = true;
        }
        i += 1;
    }
    if unsaved {
        ModeTransition::normal_with_info("unsaved changes! Run :wq or :q! instead.".to_owned())
    } else {
        ModeTransition::NewMode(Mode::Quitting(Quitting {  }))
    }
}

/// Ends the editor.
pub fn force_quit(buf: &mut BuffrCollection, _arg: &str) -> (transition: ModeTransition)
    ensures
        handled(Handler::ForceQuit, _arg@, *old(buf), *final(buf), transition),
{
    ModeTransition::NewMode(Mode::Quitting(Quitting {  }))
}

/// Asks for the current buffer to be written: to `filename`, or to its own
/// path where `filename` is empty. The view writes the file and calls
/// `write_finished`.
pub fn write(buf: &mut BuffrCollection, filename: &str) -> (transition: ModeTransition)
    requires
        old(buf).wf(),
    ensures
        handled(Handler::Write, filename@, *old(buf), *final(buf), transition),
{
    if filename.unicode_len() > 0 {
        ModeTransition::Request(CommandRequest::Write(filename.to_owned()))
    } else {
        match &buf.current().path {
            Some(path) => ModeTransition::Request(CommandRequest::Write(path.clone())),
            None => ModeTransition::normal_with_info("current_buffer has no path".to_owned()),
        }
    }
}

/// What follows when the view has tried to write the current buffer to
/// `path`. After a failure a message tells it. Otherwise the buffer is
/// clean, and `path` is its path if it had none.
pub fn write_finished(buf: &mut BuffrCollection, path: String, failure: Option<String>) -> (transition: ModeTransition)
    requires
        old(buf).wf(),
    ensures
        final(buf).wf(),
        match failure {
            Some(message) => *final(buf) == *old(buf) && to_normal_with_info(
                transition,
                "write failed: "@ + message@,
            ),
            None => current_became(
                *old(buf),
                *final(buf),
                old(buf).spec_current()@.written(path@),
            ) && to_normal(transition),
        },
{
    match failure {
        Some(message) => {
            let mut info = "write failed: ".to_owned();
            info.append(message.as_str());
            ModeTransition::normal_with_info(info)
        },
        None => {
            let buf_mut = buf.current_mut();
            buf_mut.dirty = false;
            buf_mut.update_path_if_missing(path);
            ModeTransition::normal()
        },
    }
}

/// Asks for every buffer that has a path to be written. The view writes
/// them in their order, calls `mark_written` after each, and
/// `write_all_finished` at the first failure or at the end.
pub fn write_all(buffr_collection: &mut BuffrCollection, _arg: &str) -> (transition:
    ModeTransition)
    ensures
        handled(
            Handler::WriteAll,
            _arg@,
            *old(buffr_collection),
            *final(buffr_collection),
            transition,
        ),
{
    ModeTransition::Request(CommandRequest::WriteAll)
}

/// Asks for every buffer that has a path to be written, and for the editor
/// to end if that goes well.
pub fn write_quit(buffr_collection: &mut BuffrCollection, _arg: &str) -> (transition:
    ModeTransition)
    ensures
        handled(
            Handler::WriteQuit,
            _arg@,
            *old(buffr_collection),
            *final(buffr_collection),
            transition,
        ),
{
    ModeTransition::Request(CommandRequest::WriteQuit)
}

/// What follows when the view has written the buffers, or has failed at
/// one of them: a message after a failure; otherwise the end of the editor
/// if `quit` is set, normal mode if it is not.
pub fn write_all_finished(failure: Option<String>, quit: bool) -> (transition: ModeTransition)
    ensures
        match failure {
            Some(message) => to_normal_with_info(transition, "write failed: "@ + message@),
            None => if quit {
                transition matches ModeTransition::NewMode(Mode::Quitting(mode))
            } else {
                to_normal(transition)
            },
        },
{
    match failure {
        Some(message) => {
            let mut info = "write failed: ".to_owned();
            info.append(message.as_str());
            ModeTransition::normal_with_info(info)
        },
        None => if quit {
            ModeTransition::NewMode(Mode::Quitting(Quitting {  }))
        } else {
            ModeTransition::normal()
        },
    }
}

/// Asks for the buffer of the file `filename` to become the current one.
/// The view finds or reads the file, calls `switch_current_buffer` on the
/// buffers, and then `edit_finished`.
pub fn edit(buffr_collection: &mut BuffrCollection, filename: &str) -> (transition:
    ModeTransition)
    ensures
        handled(
            Handler::Edit,
            filename@,
            *old(buffr_collection),
            *final(buffr_collection),
            transition,
        ),
{
    ModeTransition::Request(CommandRequest::Edit(filename.to_owned()))
}

/// What follows when the view has tried to make the buffer of a file the
/// current one: a message after a failure, all bytes drawn again otherwise.
pub fn edit_finished(failure: Option<String>) -> (transition: ModeTransition)
    ensures
        match failure {
            Some(message) => to_normal_with_info(transition, message@),
            None => to_normal_redrawn(transition),
        },
{
    match failure {
        Some(message) => ModeTransition::normal_with_info(message),
        None => ModeTransition::normal_and_dirty(DirtyBytes::ChangeLength),
    }
}

/// Closes the current buffer, unless it has a path and holds changes that
/// were not written.
pub fn delete_current_buffer(buffr_collection: &mut BuffrCollection, _arg: &str) -> (transition:
    ModeTransition)
    requires
        old(buffr_collection).wf(),
    ensures
        final(buffr_collection).wf(),
        handled(
            Handler::DeleteBuffer,
            _arg@,
            *old(buffr_collection),
            *final(buffr_collection),
            transition,
        ),
{
    if buffr_collection.current().dirty && buffr_collection.current().path.is_some() {
        return ModeTransition::normal_with_info(
            "current_buffer is dirty, use :db! if you're sure".to_owned(),
        );
    }
    buffr_collection.delete_current();
    ModeTransition::normal_and_dirty(DirtyBytes::ChangeLength)
}

/// Closes the current buffer.
pub fn force_delete_current_buffer(buffr_collection: &mut BuffrCollection, _arg: &str) -> (transition:
    ModeTransition)
    requires
        old(buffr_collection).wf(),
    ensures
        final(buffr_collection).wf(),
        handled(
            Handler::ForceDeleteBuffer,
            _arg@,
            *old(buffr_collection),
            *final(buffr_collection),
            transition,
        ),
{
    buffr_collection.delete_current();
    ModeTransition::normal_and_dirty(DirtyBytes::ChangeLength)
}

impl CommandView {
    /// The cursor, kept in the command.
    pub open spec fn place(self) -> int {
        if self.cursor > self.command.len() {
            self.command.len() as int
        } else {
            self.cursor
        }
    }

    /// What typing and the keys that move and remove make of the command.
    /// `None` for a key that is none of these.
    pub open spec fn edited(self, event: Event) -> Option<CommandView> {
        let at = self.place();
        match event {
            Event::Key(key) => match key.chord() {
                Chord::Plain(KeyCode::Backspace) => if at != 0 {
                    Some(CommandView { command: self.command.remove(at - 1), cursor: at - 1 })
                } else {
                    None
                },
                Chord::Plain(KeyCode::Delete) => if at < self.command.len() {
                    Some(CommandView { command: self.command.remove(at), cursor: at })
                } else {
                    Some(CommandView { command: self.command, cursor: at })
                },
                Chord::Plain(KeyCode::Left) => Some(
                    CommandView { command: self.command, cursor: if at != 0 { at - 1 } else { at } },
                ),
                Chord::Plain(KeyCode::Right) => Some(
                    CommandView {
                        command: self.command,
                        cursor: if at < self.command.len() { at + 1 } else { at },
                    },
                ),
                Chord::Plain(KeyCode::Char(c)) => Some(
                    CommandView { command: self.command.insert(at, c), cursor: at + 1 },
                ),
                _ => None,
            },
            _ => None,
        }
    }
}

impl Command {
    /// Escape lets normal mode take over. Enter has the command done.
    /// Backspace at the start does nothing. The other keys change what was
    /// typed. Anything else is left to the view.
    pub open spec fn transitioned(self, event: Event, before: BuffrCollection, after: BuffrCollection, result: Option<ModeTransition>) -> bool {
        match event {
            Event::Key(key) => match key.chord() {
                Chord::Plain(KeyCode::Esc) => after == before && (result matches Some(t)
                    && to_normal(t)),
                Chord::Plain(KeyCode::Enter) => (result matches Some(t) && finished(
                    self.command@,
                    before,
                    after,
                    t,
                )),
                Chord::Plain(KeyCode::Backspace) => after == before && match self@.edited(event) {
                    Some(next) => (result matches Some(
                        ModeTransition::NewMode(Mode::Command(command)),
                    ) && command@ == next),
                    None => (result matches Some(ModeTransition::Unchanged)),
                },
                _ => after == before && match self@.edited(event) {
                    Some(next) => (result matches Some(
                        ModeTransition::NewMode(Mode::Command(command)),
                    ) && command@ == next),
                    None => result is None,
                },
            },
            _ => after == before && result is None,
        }
    }

    /// The mode with nothing typed yet.
    pub fn new() -> (command: Command)
        ensures
            command@ == (CommandView { command: Seq::empty(), cursor: 0 }),
    {
        Command { cursor: 0, command: Vec::new() }
    }

    pub fn name(&self) -> (name: String)
        ensures
            name@ == "COMMAND"@,
    {
        "COMMAND".to_owned()
    }

    /// The command typed so far as a string.
    pub fn text(&self) -> (text: String)
        ensures
            text@ == self@.command,
    {
        string_of(&self.command)
    }

    /// Has the command done that was typed.
    pub fn finish(&self, buffr_collection: &mut BuffrCollection) -> (transition: ModeTransition)
        requires
            old(buffr_collection).wf(),
        ensures
            final(buffr_collection).wf(),
            finished(self.command@, *old(buffr_collection), *final(buffr_collection), transition),
    {
        let len = self.command.len();
        let mut split: usize = 0;
        while split < len && self.command[split] != ' '
            invariant
                split <= len,
                len == self.command@.len(),
                forall|k: int| 0 <= k < split ==> self.command@[k] != ' ',
            decreases len - split,
        {
            split += 1;
        }
        proof {
            lemma_first_space(self.command@, split as int);
        }
        let mut name: Vec<char> = Vec::new();
        let mut i: usize = 0;
        while i < split
            invariant
                i <= split <= len,
                len == self.command@.len(),
                name@ == self.command@.subrange(0, i as int),
            decreases split - i,
        {
            name.push(self.command[i]);
            assert(name@ =~= self.command@.subrange(0, i + 1));
            i += 1;
        }
        let mut rest: Vec<char> = Vec::new();
        if split < len {
            let mut j: usize = split + 1;
            while j < len
                invariant
                    split + 1 <= j <= len,
                    len == self.command@.len(),
                    rest@ == self.command@.subrange(split + 1, j as int),
                decreases len - j,
            {
                rest.push(self.command[j]);
                assert(rest@ =~= self.command@.subrange(split + 1, j + 1));
                j += 1;
            }
        }
        assert(rest@ =~= command_arg(self.command@));
        let arg = string_of(&rest);
        match default_commands(&name) {
            Some(Handler::Quit) => quit(buffr_collection, arg.as_str()),
            Some(Handler::ForceQuit) => force_quit(buffr_collection, arg.as_str()),
            Some(Handler::Write) => write(buffr_collection, arg.as_str()),
            Some(Handler::WriteQuit) => write_quit(buffr_collection, arg.as_str()),
            Some(Handler::WriteAll) => write_all(buffr_collection, arg.as_str()),
            Some(Handler::Edit) => edit(buffr_collection, arg.as_str()),
            Some(Handler::DeleteBuffer) => delete_current_buffer(buffr_collection, arg.as_str()),
            Some(Handler::ForceDeleteBuffer) => force_delete_current_buffer(
                buffr_collection,
                arg.as_str(),
            ),
            None => {
                let mut info = "Unknown command ".to_owned();
                let shown = string_of(&name);
                info.append(shown.as_str());
                ModeTransition::normal_with_info(info)
            },
        }
    }

    /// What typing and the keys that move and remove make of the command.
    pub fn edit_text(&self, event: &Event) -> (next: Option<Command>)
        ensures
            match self@.edited(*event) {
                Some(view) => next matches Some(command) && command@ == view,
                None => next is None,
            },
    {
        let len = self.command.len();
        let at = if self.cursor > len { len } else { self.cursor };
        let key = match event {
            Event::Key(key) => key,
            _ => {
                return None;
            },
        };
        let mut command = self.command.clone();
        assert(command@ =~= self.command@);
        match key.chord() {
            Chord::Plain(KeyCode::Backspace) => {
                if at != 0 {
                    command.remove(at - 1);
                    Some(Command { command, cursor: at - 1 })
                } else {
                    None
                }
            },
            Chord::Plain(KeyCode::Delete) => {
                if at < len {
                    command.remove(at);
                }
                Some(Command { command, cursor: at })
            },
            Chord::Plain(KeyCode::Left) => Some(
                Command { command, cursor: if at != 0 { at - 1 } else { at } },
            ),
            Chord::Plain(KeyCode::Right) => Some(
                Command { command, cursor: if at < len { at + 1 } else { at } },
            ),
            Chord::Plain(KeyCode::Char(c)) => {
                command.insert(at, c);
                let size = command.len();
                assert(at < size);
                Some(Command { command, cursor: at + 1 })
            },
            _ => None,
        }
    }

    /// What the mode makes of an event.
    pub fn transition(&self, evt: &Event, buffr_collection: &mut BuffrCollection, _bytes_per_line: usize) -> (result: Option<ModeTransition>)
        requires
            old(buffr_collection).wf(),
        ensures
            final(buffr_collection).wf(),
            self.transitioned(*evt, *old(buffr_collection), *final(buffr_collection), result),
    {
        match evt {
            Event::Key(key) => match key.chord() {
                Chord::Plain(KeyCode::Esc) => Some(ModeTransition::normal()),
                Chord::Plain(KeyCode::Enter) => Some(self.finish(buffr_collection)),
                Chord::Plain(KeyCode::Backspace) => match self.edit_text(evt) {
                    Some(next) => Some(ModeTransition::NewMode(Mode::Command(next))),
                    None => Some(ModeTransition::Unchanged),
                },
                _ => match self.edit_text(evt) {
                    Some(next) => Some(ModeTransition::NewMode(Mode::Command(next))),
                    None => None,
                },
            },
            _ => None,
        }
    }
}

} // verus!
