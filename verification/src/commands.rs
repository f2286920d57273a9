//! The command processor: one line in, at most one reply out.

use crate::cluster::{with_peer, Cluster};
use crate::db::Database;
use crate::model::{has_key, keys_of, lookup, put, without, Record};
use crate::protocol::CommandType;
use crate::text::{
    is_blank, join, joined, lemma_tokens_blank, split_whitespace, str_eq, tokens, uppercase_of,
};
use vstd::prelude::*;

verus! {

/// The command that a line of `count` tokens asks for, given its first
/// token in upper case. `None` stands for a line that asks for nothing the
/// server knows: an unknown name, or a known one with the wrong number of
/// arguments.
pub open spec fn kind_of(verb: Seq<char>, count: nat) -> Option<CommandType> {
    if verb == "PING"@ {
        Some(CommandType::Ping)
    } else if verb == "SET"@ && count >= 3 {
        Some(CommandType::SetValue)
    } else if verb == "GET"@ && count == 2 {
        Some(CommandType::Get)
    } else if verb == "DEL"@ && count == 2 {
        Some(CommandType::Del)
    } else if verb == "KEYS"@ {
        Some(CommandType::Keys)
    } else if verb == "CLUSTERJOIN"@ && count == 2 {
        Some(CommandType::ClusterJoin)
    } else {
        None
    }
}

/// The command that a whole line asks for. The name of a command counts
/// in any mix of upper and lower case.
pub open spec fn kind_of_line(line: Seq<char>) -> Option<CommandType> {
    let parts = tokens(line);
    if parts.len() == 0 {
        None
    } else {
        kind_of(uppercase_of(parts[0]), parts.len())
    }
}

/// The reply to a command with the tokens `parts`, run on a store that
/// holds `records`.
pub open spec fn reply_of(
    kind: Option<CommandType>,
    parts: Seq<Seq<char>>,
    records: Seq<Record>,
) -> Seq<char> {
    match kind {
        Some(CommandType::Ping) => "+PONG"@,
        Some(CommandType::SetValue) => "+OK"@,
        Some(CommandType::Get) => match lookup(records, parts[1]) {
            Some(entry) => entry.0,
            None => "(nil)"@,
        },
        Some(CommandType::Del) => if has_key(records, parts[1]) {
            ":1"@
        } else {
            ":0"@
        },
        Some(CommandType::Keys) => joined(keys_of(records), ", "@),
        Some(CommandType::ClusterJoin) => "+OK peer added"@,
        None => "-ERR unknown command"@,
    }
}

/// The records that the store holds after the command.
pub open spec fn records_after(
    kind: Option<CommandType>,
    parts: Seq<Seq<char>>,
    records: Seq<Record>,
) -> Seq<Record> {
    match kind {
        Some(CommandType::SetValue) => put(records, parts[1], (parts[2], None)),
        Some(CommandType::Del) => without(records, parts[1]),
        _ => records,
    }
}

/// The peers that the cluster holds after the command.
pub open spec fn peers_after(
    kind: Option<CommandType>,
    parts: Seq<Seq<char>>,
    peers: Seq<Seq<char>>,
) -> Seq<Seq<char>> {
    match kind {
        Some(CommandType::ClusterJoin) => with_peer(peers, parts[1]),
        _ => peers,
    }
}

/// Tells which command a line of `count` tokens asks for, given its first
/// token in upper case.
pub fn classify(verb: &str, count: usize) -> (kind: Option<CommandType>)
    ensures
        kind == kind_of(verb@, count as nat),
{
    if str_eq(verb, "PING") {
        Some(CommandType::Ping)
    } else if str_eq(verb, "SET") && count >= 3 {
        Some(CommandType::SetValue)
    } else if str_eq(verb, "GET") && count == 2 {
        Some(CommandType::Get)
    } else if str_eq(verb, "DEL") && count == 2 {
        Some(CommandType::Del)
    } else if str_eq(verb, "KEYS") {
        Some(CommandType::Keys)
    } else if str_eq(verb, "CLUSTERJOIN") && count == 2 {
        Some(CommandType::ClusterJoin)
    } else {
        None
    }
}

/// Runs the command that `verb` and the tokens `parts` of a line ask for,
/// where `verb` is the first token in upper case, and renders the reply.
pub fn dispatch(verb: &str, parts: &Vec<&str>, db: &mut Database, cluster: &mut Cluster) -> (reply:
    String)
    requires
        old(db).wf(),
        old(cluster).wf(),
    ensures
        final(db).wf(),
        final(cluster).wf(),
        reply@ == reply_of(
            kind_of(verb@, parts.len() as nat),
            parts.deep_view(),
            old(db).records(),
        ),
        final(db).records() == records_after(
            kind_of(verb@, parts.len() as nat),
            parts.deep_view(),
            old(db).records(),
        ),
        final(cluster).peers() == peers_after(
            kind_of(verb@, parts.len() as nat),
            parts.deep_view(),
            old(cluster).peers(),
        ),
{
    match classify(verb, parts.len()) {
        Some(CommandType::Ping) => "+PONG".to_owned(),
        Some(CommandType::SetValue) => {
            db.set(parts[1], parts[2]);
            "+OK".to_owned()
        },
        Some(CommandType::Get) => {
            match db.get(parts[1]) {
                Some(value) => value,
                None => "(nil)".to_owned(),
            }
        },
        Some(CommandType::Del) => {
            if db.del(parts[1]) {
                ":1".to_owned()
            } else {
                ":0".to_owned()
            }
        },
        Some(CommandType::Keys) => {
            let keys = db.keys();
            join(&keys, ", ")
        },
        Some(CommandType::ClusterJoin) => {
            cluster.add_peer(parts[1].to_owned());
            "+OK peer added".to_owned()
        },
        None => "-ERR unknown command".to_owned(),
    }
}

/// Runs one command line against the store and the cluster and renders
/// the reply. A line without any token is answered like an unknown
/// command.
pub fn handle_command(cmd: &str, db: &mut Database, cluster: &mut Cluster) -> (reply: String)
    requires
        old(db).wf(),
        old(cluster).wf(),
    ensures
        final(db).wf(),
        final(cluster).wf(),
        reply@ == reply_of(kind_of_line(cmd@), tokens(cmd@), old(db).records()),
        final(db).records() == records_after(kind_of_line(cmd@), tokens(cmd@), old(db).records()),
        final(cluster).peers() == peers_after(
            kind_of_line(cmd@),
            tokens(cmd@),
            old(cluster).peers(),
        ),
{
    let parts = split_whitespace(cmd);
    if parts.len() == 0 {
        return "-ERR unknown command".to_owned();
    }
    let verb = parts[0].to_uppercase();
    dispatch(verb.as_str(), &parts, db, cluster)
}

/// Serves one line of a connection: a blank line is skipped without a
/// reply and without effect, any other line is run as a command.
pub fn handle_line(line: &str, db: &mut Database, cluster: &mut Cluster) -> (reply: Option<String>)
    requires
        old(db).wf(),
        old(cluster).wf(),
    ensures
        final(db).wf(),
        final(cluster).wf(),
        reply is None <==> is_blank(line@),
        match reply {
            Some(text) => text@ == reply_of(
                kind_of_line(line@),
                tokens(line@),
                old(db).records(),
            ),
            None => true,
        },
        final(db).records() == records_after(kind_of_line(line@), tokens(line@), old(db).records()),
        final(cluster).peers() == peers_after(
            kind_of_line(line@),
            tokens(line@),
            old(cluster).peers(),
        ),
        is_blank(line@) ==> final(db).records() == old(db).records() && final(cluster).peers()
            == old(cluster).peers(),
{
    proof {
        lemma_tokens_blank(line@);
    }
    let parts = split_whitespace(line);
    if parts.len() == 0 {
        return None;
    }
    let verb = parts[0].to_uppercase();
    Some(dispatch(verb.as_str(), &parts, db, cluster))
}

} // verus!
