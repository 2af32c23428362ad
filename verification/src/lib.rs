pub mod configuration;
pub mod errors;
pub mod map;
pub mod request;
pub mod response;
pub mod router;
pub mod security;
pub mod server;
pub mod startline;
pub mod text;
pub mod verb;

pub use configuration::Config;
pub use errors::HttpError;
pub use errors::InternalError;
pub use map::StringMap;
pub use request::HTTPRequest;
pub use response::HTTPResponse;
pub use response::ResponseBuilder;
pub use router::ParamsHandler;
pub use router::RequestHandler;
pub use router::Route;
pub use router::Routes;
pub use security::SecurityProtocol;
pub use server::HttpServer;
pub use startline::StartLine;
pub use verb::Verb;
