//! The end-to-end scenario of the demo: two objects are synthesised into raw
//! FMCW data, turned into a radar cube by three FFTs, detected on the verified
//! peak detector, and mapped back to range, velocity and angle.
//!
//! The synthesis and the FFTs work on `f64` and stay outside the verified
//! library, so this file carries its own copy of that floating-point model.

use fmcw_radar_cube_demo::cube::Cube;
use fmcw_radar_cube_demo::order_key::order_key;
use fmcw_radar_cube_demo::radar::detect;
use fmcw_radar_cube_demo::spectrum::{doppler_bin, fftshift_bin};
use ndarray::{Array1, Array3};
use ndrustfft::{ndfft, Complex, FftHandler};
use rustfft::num_complex::Complex64;
use std::f64::consts::PI;

/// A reflecting object: angle in degrees, velocity in m/s, range in m.
#[derive(Debug, Clone)]
struct Object {
    angle: f64,
    velocity: f64,
    range: f64,
}

struct Radar {
    carrier_frequency: f64,
    c: f64,
    sampling_frequency: f64,
    bandwidth: f64,
    chirp_duration: f64,
    chirp_count: usize,
    receivers: usize,
    receiver_spacing: f64,
}

impl Radar {
    fn frame_time(&self) -> f64 {
        self.chirp_count as f64 * self.chirp_duration
    }
    fn chirp_rate(&self) -> f64 {
        self.bandwidth / self.chirp_duration
    }
    fn max_range(&self) -> f64 {
        self.c * self.sampling_frequency / 2.0 / self.chirp_rate()
    }
    fn range_resolution(&self) -> f64 {
        self.c / 2.0 / self.bandwidth
    }
    fn velocity_resolution(&self) -> f64 {
        self.wavelength() / (2.0 * self.frame_time())
    }
    fn angular_resolution(&self, angle_rad: f64) -> f64 {
        self.wavelength() / (self.receivers as f64 * self.receiver_spacing * angle_rad.cos())
    }
    fn max_velocity(&self) -> f64 {
        self.wavelength() / (4.0 * self.chirp_duration)
    }
    fn max_angle(&self) -> f64 {
        (self.wavelength() / (2.0 * self.receiver_spacing)).asin()
    }
    fn wavelength(&self) -> f64 {
        self.c / self.carrier_frequency
    }
    fn sample_count_chirp(&self) -> usize {
        (self.sampling_frequency * self.chirp_duration) as usize
    }

    fn coord_to_rda(&self, zyx: &(usize, usize, usize)) -> (f64, f64, f64) {
        let nz = self.receivers;
        let ny = self.chirp_count;
        let nx = self.sample_count_chirp();
        let angle_shifted = fftshift_bin(zyx.0, nz);
        let max_angle = self.max_angle();
        let angle = (angle_shifted as f64 / nz as f64 * (max_angle * 2.0) - max_angle)
            .asin()
            .to_degrees()
            / 2.0;
        let velocity_shifted = doppler_bin(zyx.1, ny);
        let max_vel = self.max_velocity();
        let velocity = -(velocity_shifted as f64 / ny as f64 * (max_vel * 2.0) - max_vel);
        let range = zyx.2 as f64 * self.max_range() / nx as f64;
        (range, velocity, angle)
    }

    fn radar_cube(&self, data: &Array3<Complex64>) -> Array3<f64> {
        let nx = self.sample_count_chirp();
        let ny = self.chirp_count;
        let nz = self.receivers;
        assert_eq!(*data.shape(), [nz, ny, nx]);
        let mut range_fft_data = Array3::<Complex<f64>>::zeros((nz, ny, nx));
        ndfft(&data.view(), &mut range_fft_data.view_mut(), &FftHandler::<f64>::new(nx), 2);
        let mut rd = Array3::<Complex64>::zeros((nz, ny, nx));
        ndfft(&range_fft_data.view(), &mut rd.view_mut(), &FftHandler::<f64>::new(ny), 1);
        let mut ard = Array3::<Complex64>::zeros((nz, ny, nx));
        ndfft(&rd.view(), &mut ard.view_mut(), &FftHandler::<f64>::new(nz), 0);
        ard.map(|v| v.norm())
    }
}

fn sample_signal(frequency: f64, phase: f64, count: usize, sample_time: f64) -> Array1<Complex64> {
    let mut data = Array1::<Complex64>::zeros(count);
    for (i, v) in data.iter_mut().enumerate() {
        let t = i as f64 * sample_time;
        *v = Complex64::from_polar(1.0, 2.0 * PI * frequency * t + phase);
    }
    data
}

fn obj_to_data(radar: &Radar, obj: &Object) -> Array3<Complex64> {
    let fb = obj.range * 2.0 * radar.chirp_rate() / radar.c;
    let sample_count = radar.sample_count_chirp();
    let mut data = Array3::<Complex64>::zeros((radar.receivers, radar.chirp_count, sample_count));
    let wavelength = radar.c / radar.carrier_frequency;
    let antenna_shift = 2.0 * PI * radar.receiver_spacing * obj.angle.to_radians().sin() / wavelength;
    let time_shift = 2.0 * obj.velocity * radar.chirp_duration / radar.c;
    let velocity_shift = -2.0 * PI * radar.carrier_frequency * time_shift;
    for r in 0..radar.receivers {
        for c in 0..radar.chirp_count {
            let phase = velocity_shift * c as f64 + r as f64 * antenna_shift;
            let v = sample_signal(fb, phase, sample_count, 1.0 / radar.sampling_frequency);
            for (x, value) in v.iter().enumerate() {
                data[(r, c, x)] = *value;
            }
        }
    }
    data
}

fn scene_to_data(radar: &Radar, objects: &Vec<Object>) -> Array3<Complex64> {
    let n = radar.sample_count_chirp();
    let mut data = Array3::<Complex64>::zeros((radar.receivers, radar.chirp_count, n));
    for obj in objects {
        data = data + obj_to_data(radar, obj);
    }
    data
}

/// The magnitudes of a radar cube as a cube of order keys.
fn key_cube(magnitudes: &Array3<f64>) -> Cube {
    let (nz, ny, nx) = magnitudes.dim();
    let keys: Vec<u64> = magnitudes.iter().map(|m| order_key(m.to_bits())).collect();
    Cube::from_shape_vec((nz, ny, nx), keys).unwrap()
}

#[test]
fn test_all_in_one() {
    let c = 299_792_458.0;
    let cf = 77e9;
    let radar = Radar {
        carrier_frequency: cf,
        c: c,
        sampling_frequency: 2.4e6,
        bandwidth: 320e6,
        chirp_duration: 90e-6,
        chirp_count: 64,
        receivers: 36,
        receiver_spacing: (c / cf) / 2.0,
    };
    let obj1 = Object {
        angle: 38.0,
        range: 27.0,
        velocity: -2.5,
    };
    let obj2 = Object {
        angle: -10.0,
        range: 69.0,
        velocity: 8.0,
    };
    let data = scene_to_data(&radar, &vec![obj1.clone(), obj2.clone()]);
    let output = radar.radar_cube(&data);
    let detection_coords = detect(&key_cube(&output));
    assert_eq!(detection_coords.len(), 2);
    let detections: Vec<(f64, f64, f64)> = detection_coords
        .iter()
        .map(|coord| radar.coord_to_rda(&coord))
        .collect();

    let expected = vec![
        (obj1.range, obj1.velocity, obj1.angle),
        (obj2.range, obj2.velocity, obj2.angle),
    ];

    // Sort detections by range (ascending) to match expected ordering.
    let mut detections = detections;
    detections.sort_by(|a, b| a.0.partial_cmp(&b.0).unwrap());

    for (det, exp) in detections.iter().zip(expected.iter()) {
        let (det_range, det_velocity, det_angle) = det;
        let (exp_range, exp_velocity, exp_angle) = exp;
        let range_tolerance = radar.range_resolution() * 3.0;
        assert!(
            (det_range - exp_range).abs() < range_tolerance,
            "Range mismatch: detected {:.3} m, expected {:.3} m; tolerance {:.3} m",
            det_range,
            exp_range,
            range_tolerance
        );
        let angle_tolerance = radar.angular_resolution(*exp_angle / 180.0 * PI) / PI * 180.0;
        assert!(
            (det_angle - exp_angle).abs() < angle_tolerance,
            "Angle mismatch: detected {:.3}°, expected {:.3}°; tolerance {:.3}°",
            det_angle,
            exp_angle,
            angle_tolerance
        );
        let velocity_tolerance = radar.velocity_resolution() * 3.0;
        assert!(
            (det_velocity - exp_velocity).abs() < velocity_tolerance,
            "Velocity mismatch: detected {:.3} m/s, expected {:.3} m/s; tolerance {:.3} m/s",
            det_velocity,
            exp_velocity,
            velocity_tolerance
        );
    }
}

#[test]
fn scene_detections_come_in_row_major_order() {
    let c = 299_792_458.0;
    let cf = 77e9;
    let radar = Radar {
        carrier_frequency: cf,
        c,
        sampling_frequency: 2.4e6,
        bandwidth: 320e6,
        chirp_duration: 90e-6,
        chirp_count: 64,
        receivers: 36,
        receiver_spacing: (c / cf) / 2.0,
    };
    let objects = vec![
        Object { angle: 38.0, range: 27.0, velocity: -2.5 },
        Object { angle: -10.0, range: 69.0, velocity: 8.0 },
    ];
    let output = radar.radar_cube(&scene_to_data(&radar, &objects));
    let found = detect(&key_cube(&output));
    for w in found.windows(2) {
        assert!(w[0] < w[1]);
    }
    for &(i, j, k) in &found {
        assert!(output[(i, j, k)] > 3e4);
    }
}
