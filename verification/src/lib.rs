pub mod foreign;
pub mod headers;
pub mod idor;
pub mod openid;
pub mod text;
pub mod url_parts;
