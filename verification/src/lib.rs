//! The verified core of the application server: exchange lifecycle, response
//! framing, header rules, worker bookkeeping and the front-end state machines.

pub mod app_log;
pub mod buffered_laws;
pub mod cgi;
pub mod channel;
pub mod classic;
pub mod context;
pub mod cycle;
pub mod diagnostics;
pub mod exchange;
pub mod fields;
pub mod file_laws;
pub mod fold;
pub mod frames;
pub mod front;
pub mod grouped;
pub mod head_laws;
pub mod headers;
pub mod intake;
pub mod pieces;
pub mod process;
pub mod quota;
pub mod receive;
pub mod reply;
pub mod reply_laws;
pub mod request_graph;
pub mod request_laws;
pub mod resident;
pub mod respond;
pub mod respond_laws;
pub mod runtime;
pub mod sapi;
pub mod scoreboard;
pub mod sendfile;
pub mod sending;
pub mod seqs;
pub mod server_laws;
pub mod server_vars;
pub mod spool;
pub mod stream_laws;
pub mod text;
pub mod types;
pub mod verb_laws;
pub mod verbs;
pub mod wire;
pub mod wire_laws;
pub mod worker_board;
pub mod worker_laws;
