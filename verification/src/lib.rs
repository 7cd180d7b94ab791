pub mod bignum;
pub mod bulk;
pub mod conf;
pub mod crypt;
pub mod decimal_laws;
pub mod es_api;
pub mod fraction;
pub mod fraction_laws;
pub mod global;
pub mod handler;
pub mod named_bytes;
pub mod parser;
pub mod pi_laws;
pub mod record_laws;
pub mod router;
pub mod server;
pub mod settings;
pub mod strings;
pub mod vectofile;
