//! What the debug server answers.

use vstd::prelude::*;
use vstd::string::*;

verus! {

/// What is known of a running system.
#[derive(Debug, PartialEq, Eq)]
pub struct Known {
    /// The last annotated frame, as a JPEG file.
    pub latest_frame: Option<Vec<u8>>,
    pub frames_flowing: bool,
    pub mqtt_connected: bool,
}

/// Where everything stands that is known, for all who tell and all who ask.
#[derive(Debug, PartialEq, Eq)]
pub struct DebugBoard {
    entries: Vec<Known>,
}

impl View for DebugBoard {
    type V = Seq<Known>;

    closed spec fn view(&self) -> Seq<Known> {
        self.entries@
    }
}

/// A handle on what is known of one system: all its copies lead to the same place on the board.
#[derive(Debug, Clone, Copy, PartialEq, Eq, Structural)]
pub struct DebugState {
    entry: usize,
}

/// The body of an answer.
#[derive(Debug, PartialEq, Eq)]
pub enum Body {
    Bytes(Vec<u8>),
    Text(String),
}

/// An answer of the debug server.
#[derive(Debug, PartialEq, Eq)]
pub struct Reply {
    /// The HTTP status.
    pub status: u16,
    pub content_type: &'static str,
    pub body: Body,
}

/// What is missing for the system to be healthy.
pub open spec fn health_reason(frames: bool, mqtt: bool) -> Seq<char> {
    if !frames && !mqtt {
        "no frames captured yet, MQTT not connected"@
    } else if !frames {
        "no frames captured yet"@
    } else {
        "MQTT not connected"@
    }
}

/// What is known of a system that has told nothing yet.
pub open spec fn is_nothing(known: Known) -> bool {
    known.latest_frame is None && !known.frames_flowing && !known.mqtt_connected
}

/// What is known once a new frame has come.
pub open spec fn with_frame(known: Known, jpeg_bytes: Vec<u8>) -> Known {
    Known { latest_frame: Some(jpeg_bytes), ..known }
}

impl DebugBoard {
    /// A board on which nothing stands.
    pub fn new() -> (r: Self)
        ensures
            r@.len() == 0,
    {
        let entries: Vec<Known> = Vec::new();
        assert(entries@.len() == 0);
        DebugBoard { entries }
    }
}

impl DebugState {
    /// The place on the board that the handle leads to.
    pub closed spec fn place(&self) -> int {
        self.entry as int
    }

    /// The place lies on the board.
    pub open spec fn is_on(&self, board: Seq<Known>) -> bool {
        0 <= self.place() < board.len()
    }

    /// What is known through the handle.
    pub open spec fn known(&self, board: Seq<Known>) -> Known {
        board[self.place()]
    }

    /// The board after a frame was set through the handle.
    pub open spec fn framed(&self, board: Seq<Known>, jpeg_bytes: Vec<u8>) -> Seq<Known> {
        board.update(self.place(), with_frame(self.known(board), jpeg_bytes))
    }

    /// A new place on the board, where nothing is known yet.
    pub fn new(board: &mut DebugBoard) -> (r: Self)
        ensures
            r.place() == old(board)@.len(),
            final(board)@.len() == old(board)@.len() + 1,
            final(board)@.drop_last() == old(board)@,
            r.is_on(final(board)@),
            is_nothing(r.known(final(board)@)),
    {
        let entry: usize = board.entries.len();
        board.entries.push(
            Known { latest_frame: None, frames_flowing: false, mqtt_connected: false },
        );
        assert(board.entries@.drop_last() =~= old(board).entries@);
        DebugState { entry }
    }

    /// Takes a new frame in place of the last one.
    pub fn update_frame(&self, board: &mut DebugBoard, jpeg_bytes: Vec<u8>)
        requires
            self.is_on(old(board)@),
        ensures
            final(board)@ == self.framed(old(board)@, jpeg_bytes),
    {
        let known: &Known = &board.entries[self.entry];
        let next: Known = Known {
            latest_frame: Some(jpeg_bytes),
            frames_flowing: known.frames_flowing,
            mqtt_connected: known.mqtt_connected,
        };
        board.entries.set(self.entry, next);
    }

    pub fn set_frames_flowing(&self, board: &mut DebugBoard, v: bool)
        requires
            self.is_on(old(board)@),
        ensures
            final(board)@ == old(board)@.update(
                self.place(),
                Known { frames_flowing: v, ..self.known(old(board)@) },
            ),
    {
        board.entries[self.entry].frames_flowing = v;
        assert(board@ =~= old(board)@.update(
            self.place(),
            Known { frames_flowing: v, ..self.known(old(board)@) },
        ));
    }

    pub fn set_mqtt_connected(&self, board: &mut DebugBoard, v: bool)
        requires
            self.is_on(old(board)@),
        ensures
            final(board)@ == old(board)@.update(
                self.place(),
                Known { mqtt_connected: v, ..self.known(old(board)@) },
            ),
    {
        board.entries[self.entry].mqtt_connected = v;
        assert(board@ =~= old(board)@.update(
            self.place(),
            Known { mqtt_connected: v, ..self.known(old(board)@) },
        ));
    }

    /// Of two frames that are set through a handle the last one counts, through the handle and
    /// through every copy of it: it alone is known, as if the other had not come. Neither changes
    /// what is known of the camera and of the broker, nor what is known through a handle that
    /// leads elsewhere.
    pub proof fn the_last_frame_counts(
        &self,
        copy: Self,
        other: Self,
        board: Seq<Known>,
        first: Vec<u8>,
        second: Vec<u8>,
    )
        requires
            self.is_on(board),
            copy == *self,
        ensures
            ({
                let after = self.framed(self.framed(board, first), second);
                &&& after == self.framed(board, second)
                &&& copy.is_on(after) && copy.known(after) == self.known(after)
                &&& copy.known(after).latest_frame == Some(second)
                &&& copy.known(after).frames_flowing == self.known(board).frames_flowing
                &&& copy.known(after).mqtt_connected == self.known(board).mqtt_connected
                &&& other.is_on(board) && other.place() != self.place() ==> other.known(after)
                    == other.known(board)
            }),
    {
        assert(self.framed(self.framed(board, first), second) =~= self.framed(board, second));
    }

    /// What is known through the handle.
    fn look<'a>(&self, board: &'a DebugBoard) -> (r: &'a Known)
        requires
            self.is_on(board@),
        ensures
            *r == self.known(board@),
    {
        &board.entries[self.entry]
    }

    /// The answer to a request for the last frame.
    pub fn debug_frame(&self, board: &DebugBoard) -> (r: Reply)
        requires
            self.is_on(board@),
        ensures
            match self.known(board@).latest_frame {
                Some(bytes) => {
                    &&& r.status == 200
                    &&& r.content_type@ == "image/jpeg"@
                    &&& r.body matches Body::Bytes(b) && b@ == bytes@
                },
                None => {
                    &&& r.status == 503
                    &&& r.content_type@ == "text/plain; charset=utf-8"@
                    &&& r.body matches Body::Text(t) && t@ == "no frame available yet"@
                },
            },
    {
        match &self.look(board).latest_frame {
            Some(bytes) => Reply {
                status: 200,
                content_type: "image/jpeg",
                body: Body::Bytes(bytes.clone()),
            },
            None => Reply {
                status: 503,
                content_type: "text/plain; charset=utf-8",
                body: Body::Text(String::from_str("no frame available yet")),
            },
        }
    }

    /// The answer to a request for the system's health.
    pub fn health(&self, board: &DebugBoard) -> (r: Reply)
        requires
            self.is_on(board@),
        ensures
            r.content_type@ == "application/json"@,
            if self.known(board@).frames_flowing && self.known(board@).mqtt_connected {
                &&& r.status == 200
                &&& r.body matches Body::Text(t) && t@ == "{\"status\":\"ok\"}"@
            } else {
                &&& r.status == 503
                &&& r.body matches Body::Text(t) && t@ == "{\"status\":\"unhealthy\",\"reason\":\""@
                    + health_reason(
                    self.known(board@).frames_flowing,
                    self.known(board@).mqtt_connected,
                ) + "\"}"@
            },
    {
        let known: &Known = self.look(board);
        if known.frames_flowing && known.mqtt_connected {
            Reply {
                status: 200,
                content_type: "application/json",
                body: Body::Text(String::from_str("{\"status\":\"ok\"}")),
            }
        } else {
            let reason: &'static str = if !known.frames_flowing && !known.mqtt_connected {
                "no frames captured yet, MQTT not connected"
            } else if !known.frames_flowing {
                "no frames captured yet"
            } else {
                "MQTT not connected"
            };
            let mut s: String = String::from_str("{\"status\":\"unhealthy\",\"reason\":\"");
            s.append(reason);
            s.append("\"}");
            Reply { status: 503, content_type: "application/json", body: Body::Text(s) }
        }
    }
}

} // verus!
