pub mod alist;
pub mod approval;
pub mod approval_policy;
pub mod audit;
pub mod bedrock;
pub mod budget;
pub mod calibration;
pub mod channel;
pub mod checkpoint;
pub mod clock;
pub mod credential;
pub mod defaults;
pub mod diff;
pub mod domain;
pub mod external_worker;
pub mod guardrail;
pub mod ingest_job;
pub mod http_providers;
pub mod json;
pub mod license;
pub mod lifecycle;
pub mod mailbox;
pub mod marketplace;
pub mod model_chain;
pub mod observability;
pub mod orchestrator;
pub mod plugin_capabilities;
pub mod plugin_health;
pub mod provider_binding;
pub mod provider_health;
pub mod provider_health_tracker;
pub mod provider_model;
pub mod provider_pool;
pub mod prompt_registry;
pub mod prompt_release;
pub mod quota;
pub mod recovery;
pub mod release_gate;
pub mod release_pipeline;
pub mod retention;
pub mod route_policy;
pub mod route_resolution;
pub mod research;
pub mod resource_sharing;
pub mod runtime_error;
pub mod session;
pub mod signal_routing;
pub mod skill_catalog;
pub mod spend_alert;
pub mod tenancy;
pub mod text;
pub mod tool_call_approval;
pub mod trigger;
pub mod trigger_conditions;
