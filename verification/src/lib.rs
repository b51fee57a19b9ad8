pub mod context;
pub mod document;
pub mod hook;
pub mod keyed;
pub mod metrics;
pub mod parallel;
pub mod params;
pub mod scenario;
pub mod slot;
pub mod step;
pub mod summary;
pub mod sweep;
pub mod text;

pub use context::{Context, ContextError, RuntimeContext};
pub use document::TomlValue;
pub use hook::{HookPoint, StepInfo};
pub use metrics::{MetricEvent, MetricsSink, MetricsStore};
pub use params::{ParamError, ParamErrorKind, Params, ParamsLoadError};
pub use scenario::{NodeShape, RunAction, RunStep, ScenarioRun};
pub use slot::Slot;
pub use step::StepPolicy;
pub use summary::{LatencyStats, MetricsStats};
pub use sweep::{RunConfig, RunSuite, SuiteError};
