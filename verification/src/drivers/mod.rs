pub mod llm_http;
