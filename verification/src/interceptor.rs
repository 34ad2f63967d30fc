pub mod interceptor;
