//! Container lifecycle: configuration, the status machine, call gating and
//! state updates. Loading and running the hosted module is the host's work;
//! the decisions live here.

use vstd::prelude::*;
use crate::errors::ErrorKind;
use crate::value::Value;
use crate::value::Val;
use crate::value::v_model;
use crate::value::str_eq;
use crate::value::set_field;
use crate::value::obj_set;
use crate::runtime::RuntimeType;

verus! {

broadcast use vstd::std_specs::vec::group_vec_axioms, vstd::seq::group_seq_axioms;

/// How a container is set up. Id and name are fixed at creation.
pub struct ContainerConfig {
    pub id: String,
    pub name: String,
    pub wasm_url: Option<String>,
    pub initial_state: Value,
    pub memory_limit: u32,
    pub enable_metrics: bool,
    pub enable_security: bool,
    pub runtime_type: RuntimeType,
}

/// Where a container is in its life.
#[derive(Clone, Copy, Debug, PartialEq, Eq, Structural)]
pub enum ContainerStatus {
    Created,
    Starting,
    Running,
    Paused,
    Stopping,
    Stopped,
    Error,
}

impl ContainerStatus {
    /// The lowercase name of the status.
    pub fn to_string(&self) -> (r: String)
        ensures
            *self == ContainerStatus::Created ==> r@ == "created"@,
            *self == ContainerStatus::Starting ==> r@ == "starting"@,
            *self == ContainerStatus::Running ==> r@ == "running"@,
            *self == ContainerStatus::Paused ==> r@ == "paused"@,
            *self == ContainerStatus::Stopping ==> r@ == "stopping"@,
            *self == ContainerStatus::Stopped ==> r@ == "stopped"@,
            *self == ContainerStatus::Error ==> r@ == "error"@,
    {
        match self {
            ContainerStatus::Created => "created".to_owned(),
            ContainerStatus::Starting => "starting".to_owned(),
            ContainerStatus::Running => "running".to_owned(),
            ContainerStatus::Paused => "paused".to_owned(),
            ContainerStatus::Stopping => "stopping".to_owned(),
            ContainerStatus::Stopped => "stopped".to_owned(),
            ContainerStatus::Error => "error".to_owned(),
        }
    }
}

/// One container: its configuration, status, document state and bookkeeping.
pub struct Container {
    pub config: ContainerConfig,
    pub status: ContainerStatus,
    pub state: Value,
    pub created_at: u64,
    pub last_accessed: u64,
    pub memory_usage: u32,
}

impl Container {
    /// A fresh container holding a copy of its configured initial state.
    /// The host starts it once its module is loaded.
    pub fn new(config: ContainerConfig, now: u64) -> (r: Container)
        ensures
            r.status == ContainerStatus::Created,
            r.state@ == v_model(config.initial_state),
            r.config == config,
            r.created_at == now,
            r.last_accessed == now,
            r.memory_usage == 0,
    {
        let state = config.initial_state.deep_clone();
        Container {
            config,
            status: ContainerStatus::Created,
            state,
            created_at: now,
            last_accessed: now,
            memory_usage: 0,
        }
    }

    /// Begin loading: only a freshly created container starts.
    pub fn start(&mut self) -> (r: Result<(), ErrorKind>)
        ensures
            ({
                if old(self).status == ContainerStatus::Created {
                    r is Ok && final(self).status == ContainerStatus::Starting && same_but_status(
                        *old(self),
                        *final(self),
                    )
                } else {
                    r == Err::<(), ErrorKind>(ErrorKind::Transient) && *final(self) == *old(self)
                }
            }),
    {
        if self.status == ContainerStatus::Created {
            self.status = ContainerStatus::Starting;
            Ok(())
        } else {
            Err(ErrorKind::Transient)
        }
    }

    /// The host reports the module loaded: the container runs.
    pub fn mark_running(&mut self) -> (r: Result<(), ErrorKind>)
        ensures
            ({
                if old(self).status == ContainerStatus::Starting || old(self).status
                    == ContainerStatus::Created {
                    r is Ok && final(self).status == ContainerStatus::Running && same_but_status(
                        *old(self),
                        *final(self),
                    )
                } else {
                    r == Err::<(), ErrorKind>(ErrorKind::Transient) && *final(self) == *old(self)
                }
            }),
    {
        if self.status == ContainerStatus::Starting || self.status == ContainerStatus::Created {
            self.status = ContainerStatus::Running;
            Ok(())
        } else {
            Err(ErrorKind::Transient)
        }
    }

    /// The host reports a load or run failure.
    pub fn mark_error(&mut self)
        ensures
            final(self).status == ContainerStatus::Error,
            same_but_status(*old(self), *final(self)),
    {
        self.status = ContainerStatus::Error;
    }

    /// Gate one function call: only a running container takes calls, and a
    /// taken call refreshes the access time.
    pub fn begin_call(&mut self, now: u64) -> (r: Result<(), ErrorKind>)
        ensures
            ({
                if old(self).status == ContainerStatus::Running {
                    &&& r is Ok
                    &&& final(self).last_accessed == now
                    &&& final(self).status == old(self).status
                    &&& final(self).config == old(self).config
                    &&& final(self).state == old(self).state
                    &&& final(self).created_at == old(self).created_at
                    &&& final(self).memory_usage == old(self).memory_usage
                } else {
                    r == Err::<(), ErrorKind>(ErrorKind::Transient) && *final(self) == *old(self)
                }
            }),
    {
        if self.status == ContainerStatus::Running {
            self.last_accessed = now;
            Ok(())
        } else {
            Err(ErrorKind::Transient)
        }
    }

    /// Fold a call's result value into the state under the `count` key, as
    /// the counter functions of the hosted module report it. A non-mapping
    /// state stays as it is.
    pub fn record_result(&mut self, v: Value, now: u64)
        ensures
            final(self).last_accessed == now,
            final(self).status == old(self).status,
            final(self).config == old(self).config,
            final(self).created_at == old(self).created_at,
            final(self).memory_usage == old(self).memory_usage,
            ({
                match old(self).state {
                    Value::Obj(_) => final(self).state@ == Val::Obj(
                        obj_set(old(self).state@->Obj_0, "count"@, v_model(v)),
                    ),
                    _ => final(self).state == old(self).state,
                }
            }),
    {
        self.last_accessed = now;
        match &mut self.state {
            Value::Obj(fields) => {
                set_field(fields, "count", v);
            },
            _ => {},
        }
    }

    /// Pause a running container.
    pub fn pause(&mut self) -> (r: Result<(), ErrorKind>)
        ensures
            ({
                if old(self).status == ContainerStatus::Running {
                    r is Ok && final(self).status == ContainerStatus::Paused && same_but_status(
                        *old(self),
                        *final(self),
                    )
                } else {
                    r == Err::<(), ErrorKind>(ErrorKind::Transient) && *final(self) == *old(self)
                }
            }),
    {
        if self.status == ContainerStatus::Running {
            self.status = ContainerStatus::Paused;
            Ok(())
        } else {
            Err(ErrorKind::Transient)
        }
    }

    /// Resume a paused container.
    pub fn resume(&mut self) -> (r: Result<(), ErrorKind>)
        ensures
            ({
                if old(self).status == ContainerStatus::Paused {
                    r is Ok && final(self).status == ContainerStatus::Running && same_but_status(
                        *old(self),
                        *final(self),
                    )
                } else {
                    r == Err::<(), ErrorKind>(ErrorKind::Transient) && *final(self) == *old(self)
                }
            }),
    {
        if self.status == ContainerStatus::Paused {
            self.status = ContainerStatus::Running;
            Ok(())
        } else {
            Err(ErrorKind::Transient)
        }
    }

    /// Stop the container and release its resources.
    pub fn stop(&mut self)
        ensures
            final(self).status == ContainerStatus::Stopped,
            final(self).memory_usage == 0,
            final(self).config == old(self).config,
            final(self).state == old(self).state,
            final(self).created_at == old(self).created_at,
            final(self).last_accessed == old(self).last_accessed,
    {
        self.status = ContainerStatus::Stopping;
        self.memory_usage = 0;
        self.status = ContainerStatus::Stopped;
    }

    /// Reset the state to the configured initial value.
    pub fn reset_state(&mut self)
        ensures
            final(self).state@ == v_model(old(self).config.initial_state),
            final(self).status == old(self).status,
            final(self).config == old(self).config,
            final(self).created_at == old(self).created_at,
            final(self).last_accessed == old(self).last_accessed,
            final(self).memory_usage == old(self).memory_usage,
    {
        self.state = self.config.initial_state.deep_clone();
    }

    /// Replace the state wholesale and refresh the access time.
    pub fn set_state(&mut self, new_state: Value, now: u64)
        ensures
            final(self).state == new_state,
            final(self).last_accessed == now,
            final(self).status == old(self).status,
            final(self).config == old(self).config,
            final(self).created_at == old(self).created_at,
            final(self).memory_usage == old(self).memory_usage,
    {
        self.state = new_state;
        self.last_accessed = now;
    }

    /// Replace the configuration; the id and name cannot change.
    pub fn update_config(&mut self, new_config: ContainerConfig) -> (r: Result<(), ErrorKind>)
        ensures
            ({
                if new_config.id@ == old(self).config.id@ && new_config.name@ == old(
                    self,
                ).config.name@ {
                    r is Ok && final(self).config == new_config && final(self).status == old(
                        self,
                    ).status && final(self).state == old(self).state
                } else {
                    r == Err::<(), ErrorKind>(ErrorKind::PolicyViolation) && *final(self) == *old(
                        self,
                    )
                }
            }),
    {
        if !str_eq(new_config.id.as_str(), self.config.id.as_str()) {
            return Err(ErrorKind::PolicyViolation);
        }
        if !str_eq(new_config.name.as_str(), self.config.name.as_str()) {
            return Err(ErrorKind::PolicyViolation);
        }
        self.config = new_config;
        Ok(())
    }

    /// Is the container serving: running or paused?
    pub fn health_check(&self) -> (r: bool)
        ensures
            r == (self.status == ContainerStatus::Running || self.status
                == ContainerStatus::Paused),
    {
        match self.status {
            ContainerStatus::Running => true,
            ContainerStatus::Paused => true,
            _ => false,
        }
    }

    /// Is the container running?
    pub fn is_running(&self) -> (r: bool)
        ensures
            r == (self.status == ContainerStatus::Running),
    {
        self.status == ContainerStatus::Running
    }

    /// The immutable id.
    pub fn get_id(&self) -> (r: &str)
        ensures
            r@ == self.config.id@,
    {
        self.config.id.as_str()
    }

    /// The immutable name.
    pub fn get_name(&self) -> (r: &str)
        ensures
            r@ == self.config.name@,
    {
        self.config.name.as_str()
    }

    /// The current status.
    pub fn get_status(&self) -> (r: &ContainerStatus)
        ensures
            r == &self.status,
    {
        &self.status
    }

    /// The current state tree.
    pub fn get_state(&self) -> (r: &Value)
        ensures
            r == &self.state,
    {
        &self.state
    }

    /// The reported memory footprint.
    pub fn get_memory_usage(&self) -> (r: u32)
        ensures
            r == self.memory_usage,
    {
        self.memory_usage
    }

    /// When the container was created.
    pub fn get_created_at(&self) -> (r: u64)
        ensures
            r == self.created_at,
    {
        self.created_at
    }

    /// When the container was last used.
    pub fn get_last_accessed(&self) -> (r: u64)
        ensures
            r == self.last_accessed,
    {
        self.last_accessed
    }

    /// Record the host-observed memory footprint.
    pub fn update_memory_usage(&mut self, bytes: u32)
        ensures
            final(self).memory_usage == bytes,
            final(self).status == old(self).status,
            final(self).config == old(self).config,
            final(self).state == old(self).state,
            final(self).created_at == old(self).created_at,
            final(self).last_accessed == old(self).last_accessed,
    {
        self.memory_usage = bytes;
    }
}

/// Everything but the status agrees.
pub open spec fn same_but_status(a: Container, b: Container) -> bool {
    &&& b.config == a.config
    &&& b.state == a.state
    &&& b.created_at == a.created_at
    &&& b.last_accessed == a.last_accessed
    &&& b.memory_usage == a.memory_usage
}

} // verus!
