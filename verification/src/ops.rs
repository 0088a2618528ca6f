//! The operation surface: the calls an outside shell makes, one per user
//! action. Each call updates the in-memory store and hands back the full
//! JSON text to persist; reading the file and writing it are the shell's
//! part.

use vstd::prelude::*;
use vstd::string::StringExecFns;

use crate::encode::{encode_todos, push_dec};
use crate::json::{dec_chars, enc_todos, sp_todos};
use crate::parse::{parse_todos, ParseError};
use crate::store::{created_todo, first_index_of, flipped, spec_max_id, TodoError, TodoState};
use crate::todo::{Todo, TodoView};

verus! {

/// The description of a missing id: `no todo with id ` and the id.
pub open spec fn not_found_msg(id: u32) -> Seq<char> {
    seq!['n', 'o', ' ', 't', 'o', 'd', 'o', ' ', 'w', 'i', 't', 'h', ' ', 'i', 'd', ' ']
        + dec_chars(id as nat)
}

impl TodoError {
    /// A human-readable description of the error, naming the missing id.
    pub fn message(&self) -> (r: String)
        ensures
            ({
                match *self {
                    TodoError::NotFound(id) => r@ == not_found_msg(id),
                }
            }),
    {
        match self {
            TodoError::NotFound(id) => {
                proof {
                    reveal_strlit("no todo with id ");
                }
                let mut s = String::from_str("no todo with id ");
                proof {
                    assert(s@ =~= seq![
                        'n', 'o', ' ', 't', 'o', 'd', 'o', ' ', 'w', 'i', 't', 'h', ' ', 'i',
                        'd', ' ',
                    ]);
                }
                push_dec(&mut s, *id);
                s
            },
        }
    }
}

impl ParseError {
    /// A human-readable description of the failure.
    pub fn message(&self) -> (r: String)
        ensures
            r@ == "stored todos are not a well-formed task array"@,
    {
        String::from_str("stored todos are not a well-formed task array")
    }
}

/// The current collection, straight from memory: no disk access, never
/// fails.
pub fn get_todos(state: &TodoState) -> (r: Vec<Todo>)
    ensures
        r.deep_view() == state@,
{
    state.get_all()
}

/// Hydrate the store from the persisted file's content. `None` stands for
/// a file that does not exist: that yields the empty collection, not an
/// error, and leaves the store untouched. Malformed content is reported
/// and also leaves the store untouched; well-formed content is installed
/// and returned.
pub fn load_todos(state: &mut TodoState, content: Option<&str>) -> (r: Result<
    Vec<Todo>,
    ParseError,
>)
    ensures
        ({
            match content {
                Option::None => (r matches Ok(ts) && ts.deep_view() == Seq::<TodoView>::empty())
                    && final(state)@ == old(state)@,
                Option::Some(text) => match r {
                    Result::Ok(ts) => sp_todos(text@) == Some(ts.deep_view()) && final(state)@
                        == ts.deep_view(),
                    Result::Err(_) => sp_todos(text@) is None && final(state)@ == old(state)@,
                },
            }
        }),
{
    match content {
        Option::None => {
            let empty: Vec<Todo> = Vec::new();
            proof {
                assert(empty.deep_view() =~= Seq::<TodoView>::empty());
            }
            Ok(empty)
        },
        Option::Some(text) => match parse_todos(text) {
            Result::Ok(ts) => {
                state.load_from(ts);
                Ok(state.get_all())
            },
            Result::Err(e) => Err(e),
        },
    }
}

/// Replace the whole collection with the caller's and hand back the JSON
/// text to persist.
pub fn save_todos(state: &mut TodoState, todos: Vec<Todo>) -> (r: String)
    ensures
        final(state)@ == todos.deep_view(),
        r@ == enc_todos(todos.deep_view()),
{
    let json = encode_todos(&todos);
    state.replace_all(todos);
    json
}

/// Create a task from the given text; return it together with the JSON
/// text of the grown collection.
pub fn add_todo(state: &mut TodoState, text: String) -> (r: (Todo, String))
    requires
        spec_max_id(old(state)@) < u32::MAX,
    ensures
        r.0@ == created_todo(old(state)@, text@),
        final(state)@ == old(state)@.push(r.0@),
        r.1@ == enc_todos(final(state)@),
{
    let t = state.create(text);
    let all = state.get_all();
    let json = encode_todos(&all);
    (t, json)
}

/// Flip the completion flag of the task with the given id; return the JSON
/// text of the changed collection, or report the missing id.
pub fn toggle_todo(state: &mut TodoState, id: u32) -> (r: Result<String, TodoError>)
    ensures
        ({
            let k = first_index_of(old(state)@, id);
            &&& k >= 0 ==> final(state)@ == old(state)@.update(k, flipped(old(state)@[k]))
                && (r matches Ok(json) && json@ == enc_todos(final(state)@))
            &&& k < 0 ==> r == Result::<String, TodoError>::Err(TodoError::NotFound(id))
                && final(state)@ == old(state)@
        }),
{
    match state.toggle(id) {
        Result::Ok(()) => {
            let all = state.get_all();
            Ok(encode_todos(&all))
        },
        Result::Err(e) => Err(e),
    }
}

/// Remove the task with the given id; return the JSON text of the shrunk
/// collection, or report the missing id.
pub fn delete_todo(state: &mut TodoState, id: u32) -> (r: Result<String, TodoError>)
    ensures
        ({
            let k = first_index_of(old(state)@, id);
            &&& k >= 0 ==> final(state)@ == old(state)@.remove(k) && (r matches Ok(json)
                && json@ == enc_todos(final(state)@))
            &&& k < 0 ==> r == Result::<String, TodoError>::Err(TodoError::NotFound(id))
                && final(state)@ == old(state)@
        }),
{
    match state.delete(id) {
        Result::Ok(()) => {
            let all = state.get_all();
            Ok(encode_todos(&all))
        },
        Result::Err(e) => Err(e),
    }
}

} // verus!
