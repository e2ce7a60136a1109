//! Verified core of a small web framework: HTML arena allocation and
//! serialisation, path and request helpers, input checks and date
//! formatting.

pub mod chj_util;
pub mod ahtml;
pub mod http_request_method;
pub mod lang;
pub mod conslist;
pub mod access_control;
pub mod hash_util;
pub mod auri;
pub mod date_format;
pub mod systime;
pub mod easyfiletype;
pub mod cmpfilemeta;
pub mod handler;
pub mod acontext;
pub mod blog;
pub mod hostrouter;
pub mod webutils_simple;
pub mod dt;
pub mod easy_fs;
pub mod apachelog;
pub mod imageinfo;
