use vstd::prelude::*;
use vstd::string::StringExecFns;
use crate::registry::{Registry, RoomView};

verus! {

/// The JSON string literal for `s`: quoted, with the characters JSON requires escaped.
pub uninterp spec fn json_string_of(s: Seq<char>) -> Seq<char>;

/// Relies on serde_json::to_string for a `str`: it writes the quoted, escaped JSON
/// string literal of its argument. Serialising a `str` cannot fail.
#[verifier::external_body]
fn json_string(s: &str) -> (r: String)
    ensures
        r@ == json_string_of(s@),
{
    match serde_json::to_string(s) {
        Ok(t) => t,
        Err(_) => String::new(),
    }
}

/// The JSON literals of `items`, separated by commas.
pub open spec fn json_items(items: Seq<Seq<char>>) -> Seq<char>
    decreases items.len(),
{
    if items.len() == 0 {
        Seq::empty()
    } else if items.len() == 1 {
        json_string_of(items[0])
    } else {
        json_items(items.drop_last()) + ","@ + json_string_of(items.last())
    }
}

/// The directory as a JSON object, keys in sorted order, without whitespace.
pub open spec fn directory_json(status: Seq<char>, rooms: Seq<Seq<char>>) -> Seq<char> {
    "{\"rooms\":["@ + json_items(rooms) + "],\"status\":"@ + json_string_of(status) + "}"@
}

/// The status reported for a registry that holds `n` rooms.
pub open spec fn status_for(n: nat) -> Seq<char> {
    if n == 0 {
        "No rooms found yet!"@
    } else {
        "Success!"@
    }
}

/// The names of the rooms of a registry view.
pub open spec fn room_names(v: Seq<RoomView>) -> Seq<Seq<char>> {
    v.map_values(|e: RoomView| e.0)
}

/// A snapshot of the rooms that exist, with a status line for people to read.
pub struct Directory {
    pub status: String,
    pub rooms: Vec<String>,
}

impl Directory {
    /// The names listed, as the contracts see them.
    pub open spec fn names(&self) -> Seq<Seq<char>> {
        self.rooms@.map_values(|s: String| s@)
    }

    /// The snapshot as the JSON object `{"rooms":[...],"status":...}`.
    pub fn to_json(&self) -> (r: String)
        ensures
            r@ == directory_json(self.status@, self.names()),
    {
        let mut out = String::from_str("{\"rooms\":[");
        let ghost head = "{\"rooms\":["@;
        let mut j: usize = 0;
        while j < self.rooms.len()
            invariant
                j <= self.rooms@.len(),
                head == "{\"rooms\":["@,
                out@ == head + json_items(self.names().take(j as int)),
            decreases self.rooms@.len() - j,
        {
            let ghost before = out@;
            if j > 0 {
                out.append(",");
            }
            let item = json_string(self.rooms[j].as_str());
            out.append(item.as_str());
            let ghost t = self.names().take(j + 1);
            assert(t.drop_last() =~= self.names().take(j as int));
            assert(t.last() == self.rooms@[j as int]@);
            assert(out@ =~= head + json_items(t));
            j += 1;
        }
        assert(self.names().take(j as int) =~= self.names());
        out.append("],\"status\":");
        let status = json_string(self.status.as_str());
        out.append(status.as_str());
        out.append("}");
        assert(out@ =~= directory_json(self.status@, self.names()));
        out
    }
}

impl Registry {
    /// The rooms that exist now, with "No rooms found yet!" when there are none and
    /// "Success!" otherwise.
    pub fn directory(&self) -> (d: Directory)
        ensures
            d.status@ == status_for(self@.len()),
            d.names() == room_names(self@),
    {
        let rooms = self.list_room_names();
        let status = if self.rooms.len() == 0 {
            String::from_str("No rooms found yet!")
        } else {
            String::from_str("Success!")
        };
        Directory { status, rooms }
    }

    /// The directory of this registry as JSON.
    pub fn directory_json(&self) -> (r: String)
        ensures
            r@ == directory_json(status_for(self@.len()), room_names(self@)),
    {
        self.directory().to_json()
    }
}

} // verus!
