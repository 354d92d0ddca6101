[package]
name = "task_sched"
version = "0.1.0"
edition = "2021"
publish = false

[dependencies]
tg-kernel-context = "=0.4.2-preview.1"
tg-syscall = { version = "=0.4.2-preview.1", features = ["kernel"] }
tg-task-manage = { version = "=0.4.2-preview.1", features = ["proc"] }
