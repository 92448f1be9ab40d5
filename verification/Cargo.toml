[package]
name = "thcato"
version = "0.1.0"
edition = "2021"
publish = false

[dependencies]
nalgebra-glm = "=0.18.0"
rand = "=0.8.8"
tinyfiledialogs = "=3.9.1"
minimp3 = "=0.5.2"
alto = "=3.0.4"
openxr = "=0.14.0"
enet = "=0.2.4"
gl = "0.14"
glfw = "0.41"
imgui = "0.6"
image = "0.23"
chrono = "0.4"
