[package]
name = "recurrent_visualizer"
version = "0.1.0"
edition = "2021"
publish = false

[dependencies]
cpal = "0.15"
glutin = "0.26"
jack = "*"
objc = "0.2"
piston = "0.53"
piston2d-graphics = "*"
piston2d-opengl_graphics = "*"
pistoncore-glutin_window = "0.69"
rayon = "1"
ringbuf = "0.2"
rosc = "0.10"
