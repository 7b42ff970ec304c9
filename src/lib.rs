//! Switches the active Kubernetes configuration of an interactive shell:
//! discovers `*.kubeconfig` files under `<HOME>/.kube`, selects what an
//! invocation asks for, and produces the text that the shell wrapper
//! evaluates.
pub mod discovery;
pub mod dispatch;
pub mod order;
pub mod render;
pub mod shell_init;
